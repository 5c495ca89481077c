//! Laws of modules: what their exports tell, and how their functions are called.
use crate::ivf_file;
use crate::ude_wasm::exports;
use crate::ude_wasm::exports::{Config, RuntimeError};
use crate::ude_wasm::guest_call;
use crate::ude_wasm::guest_call::{
    AfterCall,
    BlockPlan,
    CallError,
    CallKind,
    CallLayout,
    GuestBuffer,
    InputBlock,
    WasmSlice,
};
use crate::ude_wasm::micro;
use crate::ude_wasm::micro::{MicroCalls, MicroError, MicroRequest};
use vstd::prelude::*;

verus! {

/// A text starts with what it is put together of first, and ends with what comes last.
pub proof fn texts_start_and_end(a: Seq<char>, b: Seq<char>, s: Seq<char>)
    ensures
        exports::starts_with(a + b, a),
        exports::ends_with(a + b, b),
        exports::starts_with(s, a) ==> s == a + s.skip(a.len() as int),
        exports::ends_with(s, b) ==> s == s.take(s.len() - b.len()) + b,
{
    assert((a + b).take(a.len() as int) =~= a);
    assert((a + b).skip(a.len() as int) =~= b);
    if exports::starts_with(s, a) {
        assert(s =~= a + s.skip(a.len() as int));
    }
    if exports::ends_with(s, b) {
        assert(s =~= s.take(s.len() - b.len()) + b);
    }
}

/// A character is found at the first place where it is.
pub proof fn first_places_are_found(s: Seq<char>, c: char)
    ensures
        match exports::first_place(s, c) {
            Some(i) => 0 <= i < s.len() && s[i] == c && forall|j: int|
                0 <= j < i ==> #[trigger] s[j] != c,
            None => forall|j: int| 0 <= j < s.len() ==> #[trigger] s[j] != c,
        },
    decreases s.len(),
{
    if s.len() > 0 {
        let front = s.drop_last();
        first_places_are_found(front, c);
        assert forall|j: int| 0 <= j < front.len() implies #[trigger] s[j] == front[j] by {}
    }
}

/// One more digit makes a number ten times as large, and adds its own value.
pub proof fn digits_spell(s: Seq<char>, c: char)
    requires
        '0' <= c <= '9',
    ensures
        exports::spelled(Seq::empty()) == 0,
        exports::spelled(s.push(c)) == 10 * exports::spelled(s) + (c as int - '0' as int),
{
    assert(s.push(c).drop_last() =~= s);
}

/// A number below 256 may have a plus in front, and consists of digits otherwise, of which
/// there is one at least.
pub proof fn small_numbers_are_read(s: Seq<char>)
    requires
        s.len() > 0,
        exports::all_digits(s),
    ensures
        exports::small_number(s) == (if exports::spelled(s) < 256 {
            Some(exports::spelled(s) as u8)
        } else {
            None
        }),
        exports::small_number(seq!['+'] + s) == exports::small_number(s),
        exports::small_number(Seq::empty()) is None,
        exports::small_number(seq!['+']) is None,
{
    assert(s[0] != '+') by {
        assert('0' <= s[0] <= '9');
    }
    assert((seq!['+'] + s).skip(1) =~= s);
    assert(seq!['+'].skip(1) =~= Seq::<char>::empty());
}

/// A text with another character than digits is no number, unless it is a plus in front.
pub proof fn other_characters_are_refused(s: Seq<char>, i: int)
    requires
        0 <= i < s.len(),
        !('0' <= s[i] <= '9'),
        i > 0 || s[i] != '+',
    ensures
        exports::small_number(s) is None,
{
    if s[0] == '+' {
        assert(s.skip(1)[i - 1] == s[i]);
    }
}

/// The version of a module is told by two numbers with an underscore between; the first
/// underscore counts, and a first number above three is refused.
pub proof fn versions_are_told(a: Seq<char>, b: Seq<char>)
    requires
        forall|i: int| 0 <= i < a.len() ==> #[trigger] a[i] != '_',
    ensures
        ({
            let r = exports::version_of_name(a + seq!['_'] + b);
            let major = exports::small_number(a);
            let minor = exports::small_number(b);
            &&& exports::version_of_name(a) == Err::<(u8, u8), RuntimeError>(
                RuntimeError::InvalidVersion,
            )
            &&& major is None || minor is None ==> r == Err::<(u8, u8), RuntimeError>(
                RuntimeError::NotANumber,
            )
            &&& major is Some && minor is Some && major->0 <= 3 ==> r == Ok::<
                (u8, u8),
                RuntimeError,
            >((major->0, minor->0))
            &&& major is Some && minor is Some && major->0 > 3 ==> r == Err::<
                (u8, u8),
                RuntimeError,
            >(RuntimeError::UnsupportedAbi(major->0, minor->0))
        }),
{
    let s = a + seq!['_'] + b;
    first_places_are_found(s, '_');
    first_places_are_found(a, '_');
    assert(s[a.len() as int] == '_');
    assert forall|j: int| 0 <= j < a.len() implies s[j] != '_' by {
        assert(s[j] == a[j]);
    }
    assert(exports::first_place(s, '_') == Some(a.len() as int));
    assert(s.take(a.len() as int) =~= a);
    assert(s.skip(a.len() as int + 1) =~= b);
}

/// The first of the names that start with the prefix counts.
pub proof fn first_version_counts(names: Seq<Seq<char>>, n: nat)
    requires
        n <= names.len(),
    ensures
        match exports::first_version(names, n) {
            Some(i) => 0 <= i < n && exports::starts_with(names[i], "FFFUDE_VERSION_"@) && forall|
                j: int,
            |
                0 <= j < i ==> !exports::starts_with(#[trigger] names[j], "FFFUDE_VERSION_"@),
            None => forall|j: int|
                0 <= j < n ==> !exports::starts_with(#[trigger] names[j], "FFFUDE_VERSION_"@),
        },
    decreases n,
{
    if n > 0 {
        first_version_counts(names, (n - 1) as nat);
    }
}

/// The name of a module that tells its version tells it behind the prefix; without such a
/// name there is none.
pub proof fn versions_of_modules(names: Seq<Seq<char>>, i: int, rest: Seq<char>)
    requires
        0 <= i < names.len(),
        names[i] == "FFFUDE_VERSION_"@ + rest,
        forall|j: int|
            0 <= j < i ==> !exports::starts_with(#[trigger] names[j], "FFFUDE_VERSION_"@),
    ensures
        exports::abi_of(names) == exports::version_of_name(rest),
        exports::abi_of(names.take(i)) == Err::<(u8, u8), RuntimeError>(
            RuntimeError::VersionNotFound,
        ),
{
    reveal_strlit("FFFUDE_VERSION_");
    texts_start_and_end("FFFUDE_VERSION_"@, rest, rest);
    first_version_counts(names, names.len());
    first_version_counts(names.take(i), i as nat);
    assert(exports::first_version(names, names.len()) == Some(i));
    assert(names[i].skip(15) =~= rest);
    if exports::first_version(names.take(i), i as nat) is Some {
        let k = exports::first_version(names.take(i), i as nat)->0;
        assert(names.take(i)[k] == names[k]);
    }
}

/// All places where a text has a pattern are replaced, one behind the other; characters
/// between them stay.
pub proof fn patterns_are_replaced(
    s: Seq<char>,
    pattern: Seq<char>,
    with: Seq<char>,
    rest: Seq<char>,
    c: char,
)
    requires
        pattern.len() > 0,
    ensures
        exports::replaced(Seq::empty(), pattern, with).len() == 0,
        exports::replaced(pattern + rest, pattern, with) == with + exports::replaced(
            rest,
            pattern,
            with,
        ),
        !exports::starts_with(seq![c] + rest, pattern) ==> exports::replaced(
            seq![c] + rest,
            pattern,
            with,
        ) == seq![c] + exports::replaced(rest, pattern, with),
        (forall|k: int|
            0 <= k < s.len() ==> !exports::starts_with(#[trigger] s.skip(k), pattern))
            ==> exports::replaced(s, pattern, with) == s,
    decreases s.len(),
{
    texts_start_and_end(pattern, rest, rest);
    assert((pattern + rest).skip(pattern.len() as int) =~= rest);
    assert((seq![c] + rest).skip(1) =~= rest);
    if forall|k: int| 0 <= k < s.len() ==> !exports::starts_with(#[trigger] s.skip(k), pattern) {
        if s.len() > 0 {
            assert(s.skip(0) =~= s);
            assert forall|k: int| 0 <= k < s.skip(1).len() implies !exports::starts_with(
                #[trigger] s.skip(1).skip(k),
                pattern,
            ) by {
                assert(s.skip(1).skip(k) =~= s.skip(k + 1));
            }
            patterns_are_replaced(s.skip(1), pattern, with, rest, c);
            assert(seq![s[0]] + s.skip(1) =~= s);
        }
    }
}

/// A signature that is a type becomes its fields between angle brackets, and a round over
/// the types replaces one type after the other.
pub proof fn types_are_replaced(types: Seq<(Seq<char>, Seq<char>)>, s: Seq<char>, n: nat)
    requires
        n < types.len(),
    ensures
        exports::inlined_once(types, s, 0) == s,
        exports::inlined_once(types, s, n + 1) == exports::replaced(
            exports::inlined_once(types, s, n),
            "struct "@ + types[n as int].0,
            "struct<"@ + types[n as int].1 + ">"@,
        ),
        exports::inlined_upto(types, s, 0) == s,
        exports::inlined_upto(types, s, n + 1) == exports::inlined_once(
            types,
            exports::inlined_upto(types, s, n),
            types.len(),
        ),
{
}

/// What is left of a signature once its types are replaced is what another round leaves as
/// it is.
pub proof fn nothing_is_left_to_replace(types: Seq<(Seq<char>, Seq<char>)>, s: Seq<char>)
    requires
        exports::can_be_inlined(types, s),
    ensures
        exports::inlined_once(types, exports::inlined(types, s), types.len()) == exports::inlined(
            types,
            s,
        ),
{
    let n = choose|n: nat| exports::is_inlined(types, s, n);
    assert(exports::is_inlined(types, s, n));
}

/// What is printed is limited to what is said, or to 1024 bytes.
pub proof fn printing_is_limited(config: &Config, r: usize)
    requires
        call_ensures(Config::printed_at_most, (config,), r),
    ensures
        config.file_size_limit is Some ==> r == config.file_size_limit->0,
        config.file_size_limit is None ==> r == 1024,
{
}

/// A call takes what the function returns and its arguments, as far as that can be
/// addressed; a function that returns one buffer needs four bytes less for it.
pub proof fn calls_take(kind: CallKind, input: usize, kwargs: usize, r: Result<u32, CallError>)
    requires
        call_ensures(guest_call::call_len, (kind, input, kwargs), r),
    ensures
        ({
            let all = (if kind is Scalar {
                8int
            } else {
                12
            }) + input + kwargs;
            &&& r is Ok <==> all <= u32::MAX
            &&& r is Ok ==> r->Ok_0 == all
            &&& r is Err ==> r->Err_0 is InputTooLarge
        }),
{
}

/// In the block of a call what is returned stands first, the input behind it, and the other
/// arguments last.
pub proof fn arguments_are_laid_out(
    kind: CallKind,
    ptr: u32,
    input: usize,
    kwargs: usize,
    r: Result<CallLayout, CallError>,
)
    requires
        ptr + kind.header() + input + kwargs <= u32::MAX,
        call_ensures(guest_call::layout, (kind, ptr, input, kwargs), r),
    ensures
        r is Err <==> ptr == 0,
        r is Err ==> r->Err_0 is NoMemory,
        r is Ok ==> {
            let l = r->Ok_0;
            &&& l.out_ptr == ptr
            &&& l.in_ptr - l.out_ptr == (if kind is Scalar {
                8int
            } else {
                12
            })
            &&& l.in_len == input
            &&& l.kwargs_ptr == l.in_ptr + l.in_len
            &&& l.kwargs_len == kwargs
        },
{
}

/// A block is used again if it is large enough, taken if there is none, and else given back
/// with the length it was taken with and replaced.
pub proof fn blocks_are_used_again(block: InputBlock, len: u32)
    requires
        block.ptr is Some,
        block.len is Some,
    ensures
        ({
            let plan = block.plan_for(len);
            &&& len <= block.len->0 ==> plan == (BlockPlan::Reuse { ptr: block.ptr->0 })
            &&& len > block.len->0 ==> plan == (BlockPlan::Replace {
                ptr: block.ptr->0,
                old_len: block.len->0,
                len,
            })
        }),
        (InputBlock { ptr: None, len: None }).plan_for(len) == (BlockPlan::Take { len }),
{
}

/// The first length that is asked for is the one that is noted.
pub proof fn first_lengths_are_noted(block: &mut InputBlock, len: u32, r: BlockPlan)
    requires
        call_ensures(InputBlock::plan, (block, len), r),
    ensures
        r == old(block).plan_for(len),
        final(block).ptr == old(block).ptr,
        old(block).len is None ==> final(block).len == Some(len),
        old(block).len is Some ==> final(block).len == old(block).len,
{
}

/// What a function returned is told by two numbers in the memory of its module: where it
/// stands and how long it is. It has to lie in the memory; only a decoder may have no more,
/// which the number one says; other numbers than zero are errors.
pub proof fn outcomes_are_read(
    kind: CallKind,
    mem: &[u8],
    out_ptr: u32,
    errno: i32,
    r: Result<Option<WasmSlice>, CallError>,
)
    requires
        call_ensures(guest_call::read_outcome, (kind, mem, out_ptr, errno), r),
    ensures
        ({
            let ptr = ivf_file::u32_at(mem@, out_ptr as int);
            let len = ivf_file::u32_at(mem@, out_ptr + 4);
            let inside = ptr + len <= mem@.len();
            &&& !inside <==> r == Err::<Option<WasmSlice>, CallError>(CallError::OutputOutOfBounds)
            &&& inside && errno == 0 <==> r is Ok && r->Ok_0 is Some
            &&& r is Ok && r->Ok_0 is Some ==> r->Ok_0->0.ptr == ptr && r->Ok_0->0.len == len
            &&& inside && errno == 1 && kind is Decode <==> r is Ok && r->Ok_0 is None
            &&& inside && errno != 0 && !(errno == 1 && kind is Decode) ==> r == Err::<
                Option<WasmSlice>,
                CallError,
            >(CallError::Failed { errno, ptr, len })
        }),
{
}

/// A buffer of an iterator is told by three numbers: where it stands, how long it is, and
/// where the module keeps what it knows of it. A buffer at zero is none.
pub proof fn buffers_are_read(mem: &[u8], out_ptr: u32, r: Result<Option<GuestBuffer>, CallError>)
    requires
        call_ensures(guest_call::read_next_buffer, (mem, out_ptr), r),
    ensures
        ({
            let ptr = ivf_file::u32_at(mem@, out_ptr as int);
            let len = ivf_file::u32_at(mem@, out_ptr + 4);
            &&& ptr == 0 <==> r == Ok::<Option<GuestBuffer>, CallError>(None)
            &&& r is Err <==> ptr != 0 && ptr + len > mem@.len()
            &&& r is Err ==> r->Err_0 is OutputOutOfBounds
            &&& r is Ok && r->Ok_0 is Some ==> {
                let b = r->Ok_0->0;
                &&& b.bytes.ptr == ptr
                &&& b.bytes.len == len
                &&& b.address == ivf_file::u32_at(mem@, out_ptr + 8)
            }
        }),
{
}

/// What a module is asked for next stands behind what it was asked for before.
pub proof fn buffers_are_asked_for(iterator: u32, out_ptr: u32, r: (u32, u32, u32))
    requires
        out_ptr + 8 <= u32::MAX,
        call_ensures(guest_call::next_buffer_args, (iterator, out_ptr), r),
    ensures
        r.0 == iterator,
        r.1 == out_ptr,
        r.2 - r.1 == 8,
{
}

/// An instance is given back if the call went well; one that failed is replaced once.
pub proof fn failed_instances_are_replaced(ok: bool, replaced: bool, r: AfterCall)
    requires
        call_ensures(guest_call::after_call, (ok, replaced), r),
    ensures
        r is GiveBack <==> ok,
        r is Replace <==> !ok && !replaced,
        r is Fail <==> !ok && replaced,
{
}

/// The blocks that are taken are as long as the centroids, the query, the ids and the
/// distances, in this order; one that is too long is refused.
pub proof fn blocks_are_taken(
    request: &MicroRequest,
    taken: &Vec<u32>,
    r: Result<u32, MicroError>,
)
    requires
        taken@.len() < 4,
        call_ensures(MicroRequest::next_block, (request, taken), r),
    ensures
        ({
            let len = if taken@.len() == 0 {
                request.centroids
            } else if taken@.len() == 1 {
                request.query
            } else if taken@.len() == 2 {
                request.out_ids
            } else {
                request.out_dists
            };
            &&& r is Ok <==> len <= u32::MAX
            &&& r is Ok ==> r->Ok_0 == len
            &&& r is Err ==> r->Err_0 == MicroError::Call(CallError::InputTooLarge)
        }),
{
}

/// The module gets where its centroids are first; then how many components they have and
/// how many there are; and then where the query is and where the answer goes.
pub proof fn searches_of_modules(
    request: &MicroRequest,
    blocks: &Vec<u32>,
    has_set_shape: bool,
    has_search: bool,
    first: (u32, u32, u32, u32, u32),
    r: Result<MicroCalls, MicroError>,
)
    requires
        request.dims > 0,
        request.centroids <= u32::MAX,
        call_ensures(MicroRequest::init_args, (request, blocks), first),
        call_ensures(MicroRequest::plan_calls, (request, blocks, has_set_shape, has_search), r),
    ensures
        first.0 == blocks@[0],
        first.1 == request.centroids,
        first.2 == 0 && first.3 == 0 && first.4 == 0,
        r is Ok <==> has_set_shape && has_search,
        r is Err ==> (r->Err_0 is NoSetShape <==> !has_set_shape),
        r is Err ==> (r->Err_0 is NoSearch <==> has_set_shape),
        r is Ok ==> {
            let c = r->Ok_0;
            &&& c.set_shape.0 == request.dims
            &&& c.set_shape.1 == request.centroids as int / request.dims as int
            &&& c.search.0 == blocks@[1]
            &&& c.search.1 == request.dims
            &&& c.search.2 == request.k_out
            &&& c.search.3 == blocks@[2]
            &&& c.search.4 == blocks@[3]
        },
{
}

/// A block at zero is none; each other is noted behind those that were taken before.
pub proof fn taken_blocks_are_noted(blocks: &mut Vec<u32>, ptr: u32, r: Result<(), MicroError>)
    requires
        call_ensures(micro::note_block, (blocks, ptr), r),
    ensures
        r is Err <==> ptr == 0,
        ptr == 0 ==> final(blocks)@ == old(blocks)@ && r->Err_0 == MicroError::Call(
            CallError::NoMemory,
        ),
        ptr != 0 ==> final(blocks)@ == old(blocks)@.push(ptr),
{
}

} // verus!
