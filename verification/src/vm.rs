use vstd::prelude::*;
use crate::ast::{Expr, ExprModel};
use crate::emit::{compile, module_bytes};

verus! {

#[verifier::external_type_specification]
#[verifier::external_body]
pub struct ExEngine(wasmtime::Engine);

#[verifier::external_type_specification]
#[verifier::external_body]
#[verifier::reject_recursive_types(T)]
pub struct ExStore<T: 'static>(wasmtime::Store<T>);

#[verifier::external_type_specification]
#[verifier::external_body]
pub struct ExModule(wasmtime::Module);

#[verifier::external_type_specification]
#[verifier::external_body]
pub struct ExInstance(wasmtime::Instance);

#[verifier::external_type_specification]
#[verifier::external_body]
pub struct ExFunc(wasmtime::Func);

#[verifier::external_type_specification]
#[verifier::external_body]
pub struct ExFuncType(wasmtime::FuncType);

#[verifier::external_type_specification]
#[verifier::external_body]
pub struct ExVal(wasmtime::Val);

/// The type of one slot in a function signature, as the library reads it.
/// Reference types are told apart from numeric ones but not from each other.
#[derive(Debug, PartialEq, Eq, Clone, Copy)]
pub enum WasmTy {
    I32,
    I64,
    F32,
    F64,
    V128,
    Ref,
}

/// One value handed back by the virtual machine.  Floats are carried as
/// their bit patterns; vector and reference results, which the library
/// never reads, are not carried.
#[derive(Debug, PartialEq, Eq, Clone, Copy)]
pub enum WasmVal {
    I32(i32),
    I64(i64),
    F32(u32),
    F64(u64),
    Other,
}

/// A staged failure of the compile-then-execute path: each stage of the
/// virtual-machine interaction reports separately.
#[derive(Debug)]
pub enum VmError {
    /// The module bytes were rejected when loaded.
    Load(String),
    /// The loaded module could not be instantiated.
    Instantiate(String),
    /// The instance has no entry function under the expected name.
    Lookup,
    /// The entry function does not take no parameters and return one
    /// 64-bit float.
    SignatureMismatch,
    /// The call itself failed, or returned something other than one
    /// 64-bit float.
    Invocation(String),
}

/// Relies on wasmtime::Engine::default for a virtual machine with its
/// default configuration.
#[verifier::external_body]
fn new_engine() -> wasmtime::Engine {
    wasmtime::Engine::default()
}

/// Relies on wasmtime::Store::new for a fresh store tied to an engine.
#[verifier::external_body]
fn new_store(engine: &wasmtime::Engine) -> wasmtime::Store<()> {
    wasmtime::Store::new(engine, ())
}

/// The validator's cap on the size of one function body (wasmparser's
/// `MAX_WASM_FUNCTION_SIZE`); a whole module no larger than this keeps its
/// body under the cap too.
pub const MAX_LOADABLE_BYTES: usize = 7_654_321;

/// Relies on wasmtime::Module::new: it validates and loads a binary module
/// (with the crate's default text-format feature, textual input loads too).
/// Validation is deterministic, and a module the library's own compiler
/// emits is well-formed, so it loads successfully as long as it stays under
/// the validator's size cap.
#[verifier::external_body]
fn load_module(engine: &wasmtime::Engine, bytes: &[u8]) -> (r: Result<
    wasmtime::Module,
    String,
>)
    ensures
        (bytes@.len() <= MAX_LOADABLE_BYTES && (exists|em: ExprModel<u64>|
            bytes@ == module_bytes(em))) ==> r is Ok,
{
    match wasmtime::Module::new(engine, bytes) {
        Ok(m) => Ok(m),
        Err(e) => Err(e.to_string()),
    }
}

/// Relies on wasmtime::Instance::new: it instantiates a loaded module with
/// no imports.
#[verifier::external_body]
fn instantiate(
    store: &mut wasmtime::Store<()>,
    module: &wasmtime::Module,
) -> Result<wasmtime::Instance, String> {
    match wasmtime::Instance::new(&mut *store, module, &[]) {
        Ok(i) => Ok(i),
        Err(e) => Err(e.to_string()),
    }
}

/// Relies on wasmtime::Instance::get_func: it looks an exported function up
/// by name, returning nothing when there is no such export.
#[verifier::external_body]
fn get_export(
    store: &mut wasmtime::Store<()>,
    instance: &wasmtime::Instance,
    name: &str,
) -> Option<wasmtime::Func> {
    instance.get_func(&mut *store, name)
}

/// Relies on wasmtime::Func::ty for the signature of a function.
#[verifier::external_body]
fn func_ty(store: &wasmtime::Store<()>, f: &wasmtime::Func) -> wasmtime::FuncType {
    f.ty(store)
}

/// Relies on wasmtime::FuncType::params for the number of parameters.
#[verifier::external_body]
fn param_count(ft: &wasmtime::FuncType) -> usize {
    ft.params().len()
}

/// Relies on wasmtime::FuncType::results for the number of results.
#[verifier::external_body]
fn result_count(ft: &wasmtime::FuncType) -> usize {
    ft.results().len()
}

/// Relies on wasmtime::FuncType::results for the type of one result slot,
/// each variant mapped to the library's own tag.
#[verifier::external_body]
fn result_kind(ft: &wasmtime::FuncType, i: usize) -> Option<WasmTy> {
    match ft.results().nth(i) {
        None => None,
        Some(wasmtime::ValType::I32) => Some(WasmTy::I32),
        Some(wasmtime::ValType::I64) => Some(WasmTy::I64),
        Some(wasmtime::ValType::F32) => Some(WasmTy::F32),
        Some(wasmtime::ValType::F64) => Some(WasmTy::F64),
        Some(wasmtime::ValType::V128) => Some(WasmTy::V128),
        Some(wasmtime::ValType::Ref(_)) => Some(WasmTy::Ref),
    }
}

/// Relies on wasmtime::Func::call, invoked with no arguments and `n` result
/// slots.  The call writes into the buffer it is handed and cannot resize
/// it, so a successful call returns exactly `n` values; a wrong `n` is an
/// error, not a panic.
#[verifier::external_body]
fn call_entry(store: &mut wasmtime::Store<()>, f: &wasmtime::Func, n: usize) -> (r: Result<
    Vec<wasmtime::Val>,
    String,
>)
    ensures
        r matches Ok(v) ==> v@.len() == n,
{
    let mut results = vec![wasmtime::Val::I32(0); n];
    match f.call(&mut *store, &[], &mut results) {
        Ok(()) => Ok(results),
        Err(e) => Err(e.to_string()),
    }
}

/// Relies on the shape of wasmtime::Val, each variant mapped to the
/// library's own value, numeric payloads moved as they are.
#[verifier::external_body]
fn val_plain(v: &wasmtime::Val) -> WasmVal {
    match v {
        wasmtime::Val::I32(x) => WasmVal::I32(*x),
        wasmtime::Val::I64(x) => WasmVal::I64(*x),
        wasmtime::Val::F32(x) => WasmVal::F32(*x),
        wasmtime::Val::F64(x) => WasmVal::F64(*x),
        _ => WasmVal::Other,
    }
}

/// Whether a signature, read back from the machine as plain values, is the
/// entry signature: no parameters and exactly one 64-bit float result.
pub fn is_entry_sig(params: usize, results: usize, first: Option<WasmTy>) -> (b: bool)
    ensures
        b == (params == 0 && results == 1 && first == Some(WasmTy::F64)),
{
    let kind_ok = match first {
        Some(WasmTy::F64) => true,
        _ => false,
    };
    params == 0 && results == 1 && kind_ok
}

/// What the run returns for each list of values the virtual machine hands
/// back: exactly one 64-bit float yields its bit pattern, and anything else
/// is an invocation-stage failure.
pub fn extract_result(vals: &Vec<WasmVal>) -> (r: Result<u64, VmError>)
    ensures
        r matches Ok(b) ==> vals@ == seq![WasmVal::F64(b)],
        vals@.len() == 1 && vals@[0] is F64 ==> r == Ok::<u64, VmError>(vals@[0]->F64_0),
        !(vals@.len() == 1 && vals@[0] is F64) ==> r matches Err(VmError::Invocation(_)),
{
    if vals.len() == 1 {
        match vals[0] {
            WasmVal::F64(b) => {
                proof {
                    assert(vals@ =~= seq![WasmVal::F64(b)]);
                }
                return Ok(b);
            },
            _ => {},
        }
    }
    Err(VmError::Invocation("the entry function did not return one 64-bit float".to_owned()))
}

/// Compile an expression and execute it on the embedded virtual machine,
/// returning the bit pattern of the 64-bit float it computes.  The module
/// handed to the machine is exactly `module_bytes` of the expression, and a
/// module within the validator's size cap always loads, so a load-stage
/// error cannot occur for such input; each later stage of the interaction
/// reports its own failure, and what comes back on success is whatever the
/// machine computed for that module, accepted only as a single 64-bit
/// float.
pub fn evaluate_jit(e: &Expr<u64>) -> (r: Result<u64, VmError>)
    ensures
        module_bytes(e@).len() <= MAX_LOADABLE_BYTES ==> !(r matches Err(VmError::Load(_))),
{
    let bytes = compile(e);
    proof {
        assert(exists|em: ExprModel<u64>| bytes@ == module_bytes(em)) by {
            assert(bytes@ == module_bytes(e@));
        }
    }
    let engine = new_engine();
    let module = match load_module(&engine, bytes.as_slice()) {
        Ok(m) => m,
        Err(s) => {
            return Err(VmError::Load(s));
        },
    };
    let mut store = new_store(&engine);
    let instance = match instantiate(&mut store, &module) {
        Ok(i) => i,
        Err(s) => {
            return Err(VmError::Instantiate(s));
        },
    };
    let f = match get_export(&mut store, &instance, "run") {
        Some(f) => f,
        None => {
            return Err(VmError::Lookup);
        },
    };
    let ft = func_ty(&store, &f);
    let params = param_count(&ft);
    let results = result_count(&ft);
    let first = result_kind(&ft, 0);
    if !is_entry_sig(params, results, first) {
        return Err(VmError::SignatureMismatch);
    }
    let raw = match call_entry(&mut store, &f, 1) {
        Ok(v) => v,
        Err(s) => {
            return Err(VmError::Invocation(s));
        },
    };
    let mut plain: Vec<WasmVal> = Vec::new();
    let mut i: usize = 0;
    while i < raw.len()
        decreases raw@.len() - i,
    {
        plain.push(val_plain(&raw[i]));
        i = i + 1;
    }
    extract_result(&plain)
}

} // verus!
