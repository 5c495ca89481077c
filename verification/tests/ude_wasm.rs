use fff::ude_wasm::exports::{
    base64_decode, has_suffix, inline_types, symbol_text, Config, LoadError, Runtime,
    RuntimeError, SymbolError,
};
use fff::ude_wasm::guest_call::{
    after_call, call_len, layout, next_buffer_args, read_next_buffer, read_outcome, AfterCall,
    BlockPlan, CallError, CallKind, GuestBuffer, InputBlock, WasmSlice,
};
use fff::ude_wasm::micro::{note_block, MicroError, MicroRequest};

fn names(v: &[&str]) -> Vec<String> {
    v.iter().map(|s| s.to_string()).collect()
}

#[test]
fn symbols_spell_names_in_base64() {
    assert_eq!(base64_decode("YWRkKGludCxpbnQpLT5pbnQ").unwrap(), "add(int,int)->int");
    assert_eq!(base64_decode("").unwrap(), "");
    // 0xfb 0xff spelled with a dollar sign and an underscore is no text.
    assert_eq!(base64_decode("$_8").unwrap_err(), SymbolError::InvalidUtf8);
    assert_eq!(base64_decode("+/8").unwrap_err(), SymbolError::NotBase64);
    assert_eq!(base64_decode("YQ==").unwrap_err(), SymbolError::NotBase64);
    assert_eq!(symbol_text(None).unwrap_err(), SymbolError::NotBase64);
    assert_eq!(symbol_text(Some("ü".as_bytes().to_vec())).unwrap(), "ü");
    assert_eq!(symbol_text(Some(vec![0xc3])).unwrap_err(), SymbolError::InvalidUtf8);
}

#[test]
fn a_module_tells_its_version_by_a_name() {
    let init = |v: &[&str]| Runtime::init_from_exports(names(v), Config::default());
    let r = init(&["memory", "FFFUDE_VERSION_3_1", "alloc"]).unwrap();
    assert_eq!(r.abi_version(), (3, 1));
    assert_eq!(init(&["memory"]).unwrap_err(), RuntimeError::VersionNotFound);
    assert_eq!(init(&["FFFUDE_VERSION_3"]).unwrap_err(), RuntimeError::InvalidVersion);
    assert_eq!(init(&["FFFUDE_VERSION_a_1"]).unwrap_err(), RuntimeError::NotANumber);
    assert_eq!(init(&["FFFUDE_VERSION_3_256"]).unwrap_err(), RuntimeError::NotANumber);
    assert_eq!(init(&["FFFUDE_VERSION_4_0"]).unwrap_err(), RuntimeError::UnsupportedAbi(4, 0));
    assert_eq!(init(&["FFFUDE_VERSION_+1_2"]).unwrap().abi_version(), (1, 2));
}

fn module(text: &str) -> Vec<u8> {
    wat::parse_str(text).unwrap()
}

#[test]
fn a_module_is_loaded_from_its_bytes() {
    let engine = wasmtime::Engine::default();
    let bytes = module(
        r#"(module (memory (export "memory") 1)
             (func (export "FFFUDE_VERSION_3_0"))
             (func (export "decode_ffi")))"#,
    );
    let (compiled, r) = Runtime::try_new(&bytes, &engine).unwrap();
    assert_eq!(compiled.exports().count(), 3);
    assert_eq!(r.abi_version(), (3, 0));
    assert_eq!(*r.functions(), names(&["memory", "FFFUDE_VERSION_3_0", "decode_ffi"]));
    assert!(r.types().is_empty());
    assert!(r.has_function("decode_ffi"));
    assert!(!r.has_function("decode"));
    assert_eq!(r.find_function_by_inlined_signature("decode_ffi"), Some("decode_ffi"));
    assert_eq!(r.find_function_by_inlined_signature("decode"), None);
    assert_eq!(r.config.memory_size_limit, None);
    let limited = Config::default().memory_size_limit(65536);
    let (_, r) = Runtime::with_config_engine(&bytes, limited, &engine).unwrap();
    assert_eq!(r.config.memory_size_limit, Some(65536));
}

#[test]
fn a_module_is_not_loaded() {
    let engine = wasmtime::Engine::default();
    let refused = |text: &str| Runtime::try_new(&module(text), &engine).err();
    assert_eq!(
        refused(r#"(module (func (export "decode_ffi")))"#),
        Some(LoadError::Exports(RuntimeError::VersionNotFound))
    );
    assert_eq!(
        refused(r#"(module (func (export "FFFUDE_VERSION_30")))"#),
        Some(LoadError::Exports(RuntimeError::InvalidVersion))
    );
    assert_eq!(
        refused(r#"(module (func (export "FFFUDE_VERSION_3_x")))"#),
        Some(LoadError::Exports(RuntimeError::NotANumber))
    );
    assert_eq!(
        refused(r#"(module (func (export "FFFUDE_VERSION_4_1")))"#),
        Some(LoadError::Exports(RuntimeError::UnsupportedAbi(4, 1)))
    );
    assert_eq!(Runtime::try_new(b"(module)", &engine).err(), Some(LoadError::NotCompiled));
    assert_eq!(Runtime::try_new(b"", &engine).err(), Some(LoadError::NotCompiled));
}

#[test]
fn types_are_replaced_by_their_fields() {
    let types = |v: &[(&str, &str)]| -> Vec<(String, String)> {
        v.iter().map(|(k, f)| (k.to_string(), f.to_string())).collect()
    };
    assert_eq!(
        inline_types(
            &types(&[("KeyValue", "key:string,value:string")]),
            "keyvalue(string, string) -> struct KeyValue"
        ),
        "keyvalue(string, string) -> struct<key:string,value:string>"
    );
    // The type inside comes in front, so it takes two rounds.
    assert_eq!(
        inline_types(
            &types(&[("In", "x:int"), ("Out", "a:struct In,b:struct In")]),
            "f(struct Out) -> struct In"
        ),
        "f(struct<a:struct<x:int>,b:struct<x:int>>) -> struct<x:int>"
    );
    assert_eq!(inline_types(&types(&[]), "f(struct A)"), "f(struct A)");
    let r = Runtime {
        config: Config::default(),
        functions: names(&["g()", "f() -> struct P"]),
        types: types(&[("P", "x:int")]),
        abi_version: (3, 0),
    };
    assert_eq!(
        r.find_function_by_inlined_signature("f() -> struct<x:int>"),
        Some("f() -> struct P")
    );
    assert_eq!(r.find_function_by_inlined_signature("f() -> struct P"), None);
}

#[test]
fn an_instance_is_replaced_once() {
    assert_eq!(after_call(true, false), AfterCall::GiveBack);
    assert_eq!(after_call(false, false), AfterCall::Replace);
    assert_eq!(after_call(true, true), AfterCall::GiveBack);
    assert_eq!(after_call(false, true), AfterCall::Fail);
}

#[test]
fn limits_are_kept() {
    let c = Config::default().memory_size_limit(65536).file_size_limit(7);
    assert_eq!(c.memory_size_limit, Some(65536));
    assert_eq!(c.printed_at_most(), 7);
    assert_eq!(Config::default().printed_at_most(), 1024);
    assert!(has_suffix("decode_ffi", "_ffi"));
    assert!(!has_suffix("ffi", "_ffi"));
}

#[test]
fn a_block_is_kept_as_long_as_it_is_large_enough() {
    let mut block = InputBlock::new();
    assert_eq!(block.remaining(), None);
    assert_eq!(block.plan(100), BlockPlan::Take { len: 100 });
    block.taken(64);
    assert_eq!(block.plan(100), BlockPlan::Reuse { ptr: 64 });
    assert_eq!(block.plan(3), BlockPlan::Reuse { ptr: 64 });
    assert_eq!(block.remaining(), Some((64, 100)));
    assert_eq!(block.plan(101), BlockPlan::Replace { ptr: 64, old_len: 100, len: 101 });
}

#[test]
fn arguments_are_laid_out_behind_the_result() {
    let len = call_len(CallKind::Scalar, 10, 0).unwrap();
    assert_eq!(len, CallKind::Scalar.header_len() + 10);
    let at = layout(CallKind::Init, 1000, 10, 4).unwrap();
    let header = CallKind::Init.header_len();
    assert_eq!((at.out_ptr, at.in_ptr, at.in_len), (1000, 1000 + header, 10));
    assert_eq!((at.kwargs_ptr, at.kwargs_len), (1010 + header, 4));
    assert_eq!(layout(CallKind::Init, 0, 10, 4).unwrap_err(), CallError::NoMemory);
    assert_eq!(
        call_len(CallKind::Scalar, u32::MAX as usize, 0).unwrap_err(),
        CallError::InputTooLarge
    );
}

fn memory(words: &[u32]) -> Vec<u8> {
    words.iter().flat_map(|w| w.to_le_bytes()).collect()
}

#[test]
fn results_are_read_from_the_memory() {
    let mem = memory(&[8, 4, 0x41424344]);
    assert_eq!(
        read_outcome(CallKind::Scalar, &mem, 0, 0),
        Ok(Some(WasmSlice { ptr: 8, len: 4 }))
    );
    assert_eq!(read_outcome(CallKind::Decode, &mem, 0, 1), Ok(None));
    assert_eq!(
        read_outcome(CallKind::Scalar, &mem, 0, 1),
        Err(CallError::Failed { errno: 1, ptr: 8, len: 4 })
    );
    let outside = memory(&[8, 5, 0]);
    assert_eq!(read_outcome(CallKind::Scalar, &outside, 0, 0), Err(CallError::OutputOutOfBounds));
    let wraps = memory(&[u32::MAX, 2, 0]);
    assert_eq!(read_outcome(CallKind::Scalar, &wraps, 0, 0), Err(CallError::OutputOutOfBounds));
}

#[test]
fn buffers_are_read_until_there_are_no_more() {
    let mem = memory(&[12, 4, 77, 1]);
    assert_eq!(
        read_next_buffer(&mem, 0),
        Ok(Some(GuestBuffer { bytes: WasmSlice { ptr: 12, len: 4 }, address: 77 }))
    );
    assert_eq!(read_next_buffer(&memory(&[0, 4, 77]), 0), Ok(None));
    assert_eq!(
        read_next_buffer(&memory(&[12, 1, 77]), 0),
        Err(CallError::OutputOutOfBounds)
    );
    assert_eq!(next_buffer_args(5, 100), (5, 100, 108));
}

#[test]
fn a_search_among_centroids_is_planned() {
    let request = MicroRequest {
        dims: 16,
        k_out: 2,
        centroids: 128,
        query: 16,
        out_ids: 8,
        out_dists: 8,
    };
    let mut blocks = Vec::new();
    for (len, ptr) in [(128, 10), (16, 20), (8, 30), (8, 40)] {
        assert_eq!(request.next_block(&blocks), Ok(len));
        note_block(&mut blocks, ptr).unwrap();
    }
    assert_eq!(
        note_block(&mut blocks, 0).unwrap_err(),
        MicroError::Call(CallError::NoMemory)
    );
    assert_eq!(request.init_args(&blocks), (10, 128, 0, 0, 0));
    let calls = request.plan_calls(&blocks, true, true).unwrap();
    assert_eq!(calls.set_shape, (16, 8));
    assert_eq!(calls.search, (20, 16, 2, 30, 40));
    assert_eq!(request.plan_calls(&blocks, false, true).unwrap_err(), MicroError::NoSetShape);
    assert_eq!(request.plan_calls(&blocks, true, false).unwrap_err(), MicroError::NoSearch);
}

#[test]
fn functions_are_found_by_their_signature() {
    let r = Runtime::init_from_exports(
        names(&["memory", "FFFUDE_VERSION_3_0", "decode_general_ffi"]),
        Config::default(),
    )
    .unwrap();
    assert_eq!(r.functions().len(), 3);
    assert!(r.has_function("decode_general_ffi"));
    assert!(!r.has_function("decode_general"));
    assert_eq!(
        r.find_function_by_inlined_signature("decode_general_ffi"),
        Some("decode_general_ffi")
    );
    assert_eq!(r.find_function_by_inlined_signature("nothing"), None);
}
