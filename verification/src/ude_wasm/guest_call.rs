//! Calling a function of a module: where its arguments stand in the memory of the
//! module, and what it says when it returns.
use crate::ivf_file;
use crate::ivf_file::get_u32_at;
use vstd::prelude::*;

verus! {

/// How blocks in the memory of a module are aligned.
pub const INPUT_ALIGNMENT: u32 = 4;

/// Why a call failed.
#[derive(Clone, Copy, Debug, PartialEq, Eq, Structural)]
pub enum CallError {
    InputTooLarge,
    /// There is no memory for the arguments.
    NoMemory,
    OutputOutOfBounds,
    /// The function reported an error; its message is at `ptr`.
    Failed { errno: i32, ptr: u32, len: u32 },
}

/// A function of a module.
#[derive(Clone, Copy, Debug, PartialEq, Eq, Structural)]
pub enum CallKind {
    /// It returns one buffer.
    Scalar,
    /// It returns an iterator over buffers.
    Generic,
    /// It returns a decoder.
    Init,
    /// It returns the next buffers of a decoder.
    Decode,
}

impl CallKind {
    /// The bytes in front of the arguments, which hold what the function returns.
    pub open spec fn header(self) -> int {
        if self is Scalar {
            8
        } else {
            12
        }
    }

    /// The bytes in front of the arguments.
    pub fn header_len(self) -> (r: u32)
        ensures
            r == self.header(),
    {
        match self {
            CallKind::Scalar => 8,
            _ => 12,
        }
    }
}

/// The bytes that a call takes, with `input` and `kwargs` bytes of arguments.
pub open spec fn call_size(kind: CallKind, input: int, kwargs: int) -> Result<u32, CallError> {
    if kind.header() + input + kwargs <= u32::MAX {
        Ok((kind.header() + input + kwargs) as u32)
    } else {
        Err(CallError::InputTooLarge)
    }
}

/// The bytes that a call takes.
pub fn call_len(kind: CallKind, input: usize, kwargs: usize) -> (r: Result<u32, CallError>)
    ensures
        r == call_size(kind, input as int, kwargs as int),
{
    let total: u128 = kind.header_len() as u128 + input as u128 + kwargs as u128;
    if total <= 0xffff_ffff {
        Ok(total as u32)
    } else {
        Err(CallError::InputTooLarge)
    }
}

/// The block that a module keeps for arguments. The length is that of the block
/// that was taken first; a larger block that replaces it does not change it.
#[derive(Clone, Copy, Debug, PartialEq, Eq, Structural)]
pub struct InputBlock {
    pub ptr: Option<u32>,
    pub len: Option<u32>,
}

/// How the block for a call is had.
#[derive(Clone, Copy, Debug, PartialEq, Eq, Structural)]
pub enum BlockPlan {
    Reuse { ptr: u32 },
    Take { len: u32 },
    /// Give back the block, and take another.
    Replace { ptr: u32, old_len: u32, len: u32 },
}

impl InputBlock {
    /// No block yet.
    pub fn new() -> (r: Self)
        ensures
            r == (InputBlock { ptr: None, len: None }),
    {
        InputBlock { ptr: None, len: None }
    }

    /// Whether a block that is too small can be given back.
    pub open spec fn can_hold(self, len: u32) -> bool {
        self.len matches Some(n) && n < len ==> self.ptr is Some
    }

    /// How a block of `len` bytes is had.
    pub open spec fn plan_for(self, len: u32) -> BlockPlan {
        match self.len {
            Some(n) => if n < len {
                BlockPlan::Replace { ptr: self.ptr->0, old_len: n, len }
            } else {
                match self.ptr {
                    Some(ptr) => BlockPlan::Reuse { ptr },
                    None => BlockPlan::Take { len: n },
                }
            },
            None => match self.ptr {
                Some(ptr) => BlockPlan::Reuse { ptr },
                None => BlockPlan::Take { len },
            },
        }
    }

    /// Plans how a block of `len` bytes is had. The first length is noted.
    pub fn plan(&mut self, len: u32) -> (r: BlockPlan)
        requires
            old(self).can_hold(len),
        ensures
            r == old(self).plan_for(len),
            final(self).ptr == old(self).ptr,
            final(self).len == (if old(self).len is None {
                Some(len)
            } else {
                old(self).len
            }),
    {
        match self.len {
            Some(n) => {
                if n < len {
                    return BlockPlan::Replace { ptr: self.ptr.unwrap(), old_len: n, len };
                }
                match self.ptr {
                    Some(ptr) => BlockPlan::Reuse { ptr },
                    None => BlockPlan::Take { len: n },
                }
            },
            None => {
                self.len = Some(len);
                match self.ptr {
                    Some(ptr) => BlockPlan::Reuse { ptr },
                    None => BlockPlan::Take { len },
                }
            },
        }
    }

    /// Notes the block that was taken.
    pub fn taken(&mut self, ptr: u32)
        ensures
            *final(self) == (InputBlock { ptr: Some(ptr), ..*old(self) }),
    {
        self.ptr = Some(ptr);
    }

    /// What is given back in the end.
    pub fn remaining(&self) -> (r: Option<(u32, u32)>)
        requires
            self.ptr is Some ==> self.len is Some,
        ensures
            r == (match self.ptr {
                Some(ptr) => Some((ptr, self.len->0)),
                None => None,
            }),
    {
        match self.ptr {
            Some(ptr) => Some((ptr, self.len.unwrap())),
            None => None,
        }
    }
}

/// As long as no larger input comes, a block is taken once, with the length of the
/// first call; all calls use it, and in the end it is given back with this length.
pub proof fn block_is_taken_once(first: u32, ptr: u32, later: u32)
    requires
        later <= first,
    ensures
        (InputBlock { ptr: None, len: None }).plan_for(first) == (BlockPlan::Take { len: first }),
        (InputBlock { ptr: Some(ptr), len: Some(first) }).plan_for(later) == (BlockPlan::Reuse {
            ptr,
        }),
{
}

/// Where the arguments of a call stand, if its block is at `ptr`.
#[derive(Clone, Copy, Debug, PartialEq, Eq, Structural)]
pub struct CallLayout {
    pub in_ptr: u32,
    pub in_len: u32,
    pub kwargs_ptr: u32,
    pub kwargs_len: u32,
    /// Where the function puts what it returns.
    pub out_ptr: u32,
}

/// Lays the arguments of a call out in its block. The block has to end within the
/// memory that can be addressed.
pub fn layout(kind: CallKind, ptr: u32, input: usize, kwargs: usize) -> (r: Result<
    CallLayout,
    CallError,
>)
    requires
        ptr + kind.header() + input + kwargs <= u32::MAX,
    ensures
        ptr == 0 ==> r == Err::<CallLayout, CallError>(CallError::NoMemory),
        ptr != 0 ==> r == Ok::<CallLayout, CallError>(
            CallLayout {
                in_ptr: (ptr + kind.header()) as u32,
                in_len: input as u32,
                kwargs_ptr: (ptr + kind.header() + input) as u32,
                kwargs_len: kwargs as u32,
                out_ptr: ptr,
            },
        ),
{
    if ptr == 0 {
        return Err(CallError::NoMemory);
    }
    let in_ptr: u32 = ptr + kind.header_len();
    Ok(
        CallLayout {
            in_ptr,
            in_len: input as u32,
            kwargs_ptr: in_ptr + input as u32,
            kwargs_len: kwargs as u32,
            out_ptr: ptr,
        },
    )
}

/// Bytes in the memory of a module.
#[derive(Clone, Copy, Debug, PartialEq, Eq, Structural)]
pub struct WasmSlice {
    pub ptr: u32,
    pub len: u32,
}

impl WasmSlice {
    pub fn ptr(&self) -> (r: u32)
        ensures
            r == self.ptr,
    {
        self.ptr
    }

    pub fn len(&self) -> (r: u32)
        ensures
            r == self.len,
    {
        self.len
    }

    pub fn is_empty(&self) -> (r: bool)
        ensures
            r == (self.len == 0),
    {
        self.len == 0
    }

    /// Whether the bytes are in a memory of `len` bytes.
    pub open spec fn lies_within(self, len: int) -> bool {
        self.ptr + self.len <= len
    }

    /// Tells whether the bytes are in a memory of `len` bytes.
    pub fn is_within(&self, len: usize) -> (r: bool)
        ensures
            r == self.lies_within(len as int),
    {
        self.ptr as u64 + self.len as u64 <= len as u64
    }
}

/// What the function says it returns.
pub open spec fn returned(mem: Seq<u8>, out_ptr: u32) -> WasmSlice {
    WasmSlice {
        ptr: ivf_file::u32_at(mem, out_ptr as int),
        len: ivf_file::u32_at(mem, out_ptr + 4),
    }
}

/// What a function returned: nothing if a decoder has no more buffers.
pub open spec fn outcome(kind: CallKind, mem: Seq<u8>, out_ptr: u32, errno: i32) -> Result<
    Option<WasmSlice>,
    CallError,
> {
    let s = returned(mem, out_ptr);
    if !s.lies_within(mem.len() as int) {
        Err(CallError::OutputOutOfBounds)
    } else if errno == 0 {
        Ok(Some(s))
    } else if kind is Decode && errno == 1 {
        Ok(None)
    } else {
        Err(CallError::Failed { errno, ptr: s.ptr, len: s.len })
    }
}

/// Reads what a function returned from the memory of its module, given the number
/// that it returned.
pub fn read_outcome(kind: CallKind, mem: &[u8], out_ptr: u32, errno: i32) -> (r: Result<
    Option<WasmSlice>,
    CallError,
>)
    requires
        out_ptr + 8 <= mem@.len(),
    ensures
        r == outcome(kind, mem@, out_ptr, errno),
{
    let len: usize = mem.len();
    let s = WasmSlice {
        ptr: get_u32_at(mem, out_ptr as usize),
        len: get_u32_at(mem, out_ptr as usize + 4),
    };
    if !s.is_within(len) {
        return Err(CallError::OutputOutOfBounds);
    }
    if errno == 0 {
        return Ok(Some(s));
    }
    match kind {
        CallKind::Decode => {
            if errno == 1 {
                return Ok(None);
            }
        },
        _ => {},
    }
    Err(CallError::Failed { errno, ptr: s.ptr, len: s.len })
}

/// A buffer that a module hands out: its bytes, and where the module keeps what it
/// knows of it.
#[derive(Clone, Copy, Debug, PartialEq, Eq, Structural)]
pub struct GuestBuffer {
    pub bytes: WasmSlice,
    pub address: u32,
}

/// The arguments with which the next buffer of an iterator is asked for.
pub fn next_buffer_args(iterator: u32, out_ptr: u32) -> (r: (u32, u32, u32))
    requires
        out_ptr + 8 <= u32::MAX,
    ensures
        r == (iterator, out_ptr, (out_ptr + 8) as u32),
{
    (iterator, out_ptr, out_ptr + 8)
}

/// The next buffer of an iterator; nothing if there are no more.
pub open spec fn next_buffer(mem: Seq<u8>, out_ptr: u32) -> Result<Option<GuestBuffer>, CallError> {
    let s = returned(mem, out_ptr);
    if s.ptr == 0 {
        Ok(None)
    } else if !s.lies_within(mem.len() as int) {
        Err(CallError::OutputOutOfBounds)
    } else {
        Ok(Some(GuestBuffer { bytes: s, address: ivf_file::u32_at(mem, out_ptr + 8) }))
    }
}

/// Reads the next buffer of an iterator from the memory of its module.
pub fn read_next_buffer(mem: &[u8], out_ptr: u32) -> (r: Result<Option<GuestBuffer>, CallError>)
    requires
        out_ptr + 12 <= mem@.len(),
    ensures
        r == next_buffer(mem@, out_ptr),
{
    let len: usize = mem.len();
    let at: usize = out_ptr as usize;
    let s = WasmSlice { ptr: get_u32_at(mem, at), len: get_u32_at(mem, at + 4) };
    let address: u32 = get_u32_at(mem, at + 8);
    if s.ptr == 0 {
        return Ok(None);
    }
    if !s.is_within(len) {
        return Err(CallError::OutputOutOfBounds);
    }
    Ok(Some(GuestBuffer { bytes: s, address }))
}

/// What is done once a function has been called.
#[derive(Clone, Copy, Debug, PartialEq, Eq, Structural)]
pub enum AfterCall {
    /// The instance waits for the next call.
    GiveBack,
    /// A new instance takes the place of the one that failed, and is called.
    Replace,
    /// The new instance has failed too.
    Fail,
}

/// What is done once a function has been called, if the instance has been replaced
/// before or not.
pub open spec fn done_after(ok: bool, replaced: bool) -> AfterCall {
    if ok {
        AfterCall::GiveBack
    } else if replaced {
        AfterCall::Fail
    } else {
        AfterCall::Replace
    }
}

/// What to do once a function has been called.
pub fn after_call(ok: bool, replaced: bool) -> (r: AfterCall)
    ensures
        r == done_after(ok, replaced),
{
    if ok {
        AfterCall::GiveBack
    } else if replaced {
        AfterCall::Fail
    } else {
        AfterCall::Replace
    }
}

/// How the calls of one request end, if the `k`-th call from now on goes as
/// `outcomes[k]` says: with how many calls, and what is done at last.
pub open spec fn calls_end(outcomes: Seq<bool>, replaced: bool) -> (nat, AfterCall)
    decreases outcomes.len(),
{
    let next = done_after(outcomes[0], replaced);
    if next is Replace && outcomes.len() > 1 {
        let later = calls_end(outcomes.skip(1), true);
        (later.0 + 1, later.1)
    } else {
        (1, next)
    }
}

/// A request takes two calls at most, so an instance is replaced once at most; it
/// fails only if both calls do, and an instance that has failed is never given back.
pub proof fn replaced_once_at_most(outcomes: Seq<bool>)
    requires
        outcomes.len() >= 2,
    ensures
        calls_end(outcomes, false) == (if outcomes[0] {
            (1nat, AfterCall::GiveBack)
        } else if outcomes[1] {
            (2nat, AfterCall::GiveBack)
        } else {
            (2nat, AfterCall::Fail)
        }),
{
    let rest = outcomes.skip(1);
    assert(rest[0] == outcomes[1]);
    assert(calls_end(rest, true) == (1nat, done_after(rest[0], true)));
}

} // verus!
