use vstd::prelude::*;

use crate::LwskError;

verus! {

// The sandbox execution engine is an outside collaborator: a black-box
// bytecode interpreter with fuel metering, memory introspection and module
// loading. The kernel drives it through the trusted items below and never
// looks inside its values.

#[verifier::external_type_specification]
#[verifier::external_body]
pub struct ExEngine(wasmi::Engine);

#[verifier::external_type_specification]
#[verifier::external_body]
pub struct ExModule(wasmi::Module);

#[verifier::external_type_specification]
#[verifier::external_body]
pub struct ExInstance(wasmi::Instance);

#[verifier::external_type_specification]
#[verifier::external_body]
#[verifier::reject_recursive_types(T)]
pub struct ExStore<T>(wasmi::Store<T>);

// A store is the sandbox's state container and a module is a compiled
// artifact; the names below stand for what they hold. Every store created
// by this crate comes from `initialize_wasm` (fixed engine configuration,
// fuel metering on) and hosts at most one instance, made by
// `instantiate_and_start` with an empty import set, so that instance's
// exports are fixed and nothing can refill the store's fuel during a call.
// The wrappers state how each call reads or changes this state.

/// The engine is configured as `initialize_wasm` builds every engine of
/// this crate: default configuration with fuel metering enabled.
pub uninterp spec fn standard_engine(e: wasmi::Engine) -> bool;

/// The store was created from this engine; the engine panics when a linker
/// of one engine instantiates into a store of another.
pub uninterp spec fn paired(e: wasmi::Engine, s: wasmi::Store<()>) -> bool;

/// Fuel metering is enabled for the store, so its fuel can be read and set.
pub uninterp spec fn metered(s: wasmi::Store<()>) -> bool;

/// The store holds no instance yet, as `initialize_wasm` returns it.
pub uninterp spec fn fresh_store(s: wasmi::Store<()>) -> bool;

/// The instance was instantiated within this store; lookups through the pair
/// are defined exactly when this holds (the engine panics on a foreign pair).
pub uninterp spec fn instance_of(s: wasmi::Store<()>, i: wasmi::Instance) -> bool;

/// The remaining fuel of the store.
pub uninterp spec fn store_fuel(s: wasmi::Store<()>) -> nat;

/// The store's instance exports a linear memory named `memory`.
pub uninterp spec fn has_mem(s: wasmi::Store<()>) -> bool;

/// The bytes of the linear memory named `memory` of the store's instance.
pub uninterp spec fn store_mem(s: wasmi::Store<()>) -> Seq<u8>;

/// The store's instance has an export of the given name and it is a global
/// variable, of whatever type.
pub uninterp spec fn global_exists(s: wasmi::Store<()>, name: Seq<char>) -> bool;

/// The value of the exported 32-bit integer global of the given name of the
/// store's instance; `None` if no such export exists or it is not a 32-bit
/// integer.
pub uninterp spec fn global_i32(s: wasmi::Store<()>, name: Seq<char>) -> Option<int>;

/// The store's instance exports a function `process` of type `() -> i32`.
pub uninterp spec fn entry_ok(s: wasmi::Store<()>) -> bool;

/// The module was compiled by this engine.
pub uninterp spec fn compiled_for(m: wasmi::Module, e: wasmi::Engine) -> bool;

/// The bytecode the module was compiled from.
pub uninterp spec fn module_src(m: wasmi::Module) -> Seq<u8>;

/// The bytes parse and validate as a bytecode module under this crate's
/// fixed engine configuration: the named outcome of `wasmi::Module::new`.
pub uninterp spec fn parse_ok(wasm_bytes: Seq<u8>) -> bool;

/// Linking the module of these bytes against an empty import set into a
/// fresh metered store, and running its start function, completes without
/// error. The engine configuration, the import set and the fresh store
/// leave the bytes as the only input, and the engine interprets
/// deterministically: the named outcome of `Linker::instantiate_and_start`.
/// Note that a fresh store holds no fuel, so a start function that executes
/// any metered instruction traps here.
pub uninterp spec fn link_start_ok(wasm_bytes: Seq<u8>) -> bool;

/// The whole loading pipeline succeeds on these bytes: parse and validate,
/// link with no imports, run the start function.
pub open spec fn load_ok(wasm_bytes: Seq<u8>) -> bool {
    parse_ok(wasm_bytes) && link_start_ok(wasm_bytes)
}

/// Setting the store's remaining fuel to exactly `fuel` and then calling
/// its exported `process` entry traps (fuel exhaustion included): the named
/// outcome of `TypedFunc::call`, a function of the store's state and the
/// budget alone, since the engine interprets deterministically and the
/// instance has no host imports. The store's fuel before the refuel does
/// not matter, as it is overwritten.
pub uninterp spec fn invoke_traps(s: wasmi::Store<()>, fuel: u64) -> bool;

/// The store keeps the same instance, exports, metering, memory presence
/// and length, fuel and global values; only the memory's bytes may differ:
/// true of a write to the linear memory.
pub open spec fn store_same_but_mem(a: wasmi::Store<()>, b: wasmi::Store<()>) -> bool {
    &&& forall|i: wasmi::Instance| #[trigger] instance_of(b, i) == instance_of(a, i)
    &&& metered(b) == metered(a)
    &&& has_mem(b) == has_mem(a)
    &&& store_mem(b).len() == store_mem(a).len()
    &&& forall|n: Seq<char>| #[trigger] global_exists(b, n) == global_exists(a, n)
    &&& forall|n: Seq<char>| #[trigger] global_i32(b, n) == global_i32(a, n)
    &&& entry_ok(b) == entry_ok(a)
    &&& store_fuel(b) == store_fuel(a)
}

/// Relies on wasmi's `Config::default`, `Config::consume_fuel`,
/// `Engine::new` and `Store::new`: builds a fresh metered engine (fuel
/// accounting enabled) and an empty store for it.
#[verifier::external_body]
pub fn initialize_wasm() -> (r: (wasmi::Engine, wasmi::Store<()>))
    ensures
        standard_engine(r.0),
        paired(r.0, r.1),
        metered(r.1),
        fresh_store(r.1),
{
    let mut config = wasmi::Config::default();
    config.consume_fuel(true);
    let engine = wasmi::Engine::new(&config);
    let store = wasmi::Store::new(&engine, ());
    (engine, store)
}

/// Relies on `wasmi::Module::new`: parses and validates a bytecode module
/// for the given engine, succeeding exactly when the bytes are a valid
/// module; any parse or validation failure is a load error.
#[verifier::external_body]
pub(crate) fn parse_module(engine: &wasmi::Engine, wasm_bytes: &[u8]) -> (r: Result<
    wasmi::Module,
    LwskError,
>)
    requires
        standard_engine(*engine),
    ensures
        r is Ok <==> parse_ok(wasm_bytes@),
        r matches Ok(m) ==> compiled_for(m, *engine) && module_src(m) == wasm_bytes@,
        r matches Err(e) ==> e is WasmLoadError,
{
    match wasmi::Module::new(engine, wasm_bytes) {
        Ok(m) => Ok(m),
        Err(_) => Err(LwskError::WasmLoadError),
    }
}

/// Relies on `wasmi::Linker::new` and `Linker::instantiate_and_start`: the
/// module is linked against an empty import set, instantiated within the
/// store, and its start function is run. The engine must be the one the
/// store was created from (the engine asserts their identity) and the one
/// the module was compiled by. On success the returned instance is the
/// store's instance. On a fresh store the outcome is the named one of the
/// module's bytes. With an empty import set the instance has no host
/// imports, so nothing can refill the store's fuel during later calls.
#[verifier::external_body]
pub(crate) fn instantiate_and_start(
    engine: &wasmi::Engine,
    store: &mut wasmi::Store<()>,
    module: &wasmi::Module,
) -> (r: Result<wasmi::Instance, LwskError>)
    requires
        standard_engine(*engine),
        paired(*engine, *old(store)),
        compiled_for(*module, *engine),
    ensures
        r matches Ok(i) ==> instance_of(*final(store), i),
        fresh_store(*old(store)) ==> (r is Ok <==> link_start_ok(module_src(*module))),
        metered(*final(store)) == metered(*old(store)),
        r matches Err(e) ==> e is WasmLoadError,
{
    let linker = <wasmi::Linker<()>>::new(engine);
    match linker.instantiate_and_start(&mut *store, module) {
        Ok(instance) => Ok(instance),
        Err(_) => Err(LwskError::WasmLoadError),
    }
}

/// Relies on `wasmi::Instance::get_global`, `Global::get` and `Val::i32`:
/// looks up the exported global and returns its value exactly when it
/// exists and is a 32-bit integer; a missing export (or one that is not a
/// global at all) and a global of another type are told apart.
#[verifier::external_body]
pub(crate) fn read_global_i32(
    instance: &wasmi::Instance,
    store: &wasmi::Store<()>,
    ident: &str,
) -> (r: Result<i32, LwskError>)
    requires
        instance_of(*store, *instance),
    ensures
        r is Ok <==> global_i32(*store, ident@) is Some,
        r matches Ok(v) ==> global_i32(*store, ident@) == Some(v as int),
        r is Ok ==> global_exists(*store, ident@),
        r matches Err(e) ==> (e is GlobalDoesNotExist <==> !global_exists(*store, ident@)),
        r matches Err(e) ==> (e is UnexpectedWasmType <==> global_exists(*store, ident@)
            && global_i32(*store, ident@) is None),
{
    match instance.get_global(store, ident) {
        None => Err(LwskError::GlobalDoesNotExist),
        Some(global) => match global.get(store).i32() {
            Some(v) => Ok(v),
            None => Err(LwskError::UnexpectedWasmType),
        },
    }
}

/// Relies on `wasmi::Instance::get_memory` and `Memory::data_size`: returns
/// the byte length of the linear memory named `memory`, exactly when that
/// export exists.
#[verifier::external_body]
pub(crate) fn mem_size(instance: &wasmi::Instance, store: &wasmi::Store<()>) -> (r: Result<
    usize,
    LwskError,
>)
    requires
        instance_of(*store, *instance),
    ensures
        r is Ok <==> has_mem(*store),
        r matches Ok(n) ==> n == store_mem(*store).len(),
        r matches Err(e) ==> e is NoSuchWasmMemory,
{
    match instance.get_memory(store, "memory") {
        None => Err(LwskError::NoSuchWasmMemory),
        Some(memory) => Ok(memory.data_size(store)),
    }
}

/// Relies on `wasmi::Instance::get_memory` and `Memory::read`: fills `buf`
/// from `memory[offset .. offset + buf.len()]`. The window is checked by the
/// caller to lie within the memory, so the read cannot fail.
#[verifier::external_body]
pub(crate) fn mem_read(
    instance: &wasmi::Instance,
    store: &wasmi::Store<()>,
    offset: usize,
    buf: &mut Vec<u8>,
)
    requires
        instance_of(*store, *instance),
        has_mem(*store),
        offset + old(buf)@.len() <= store_mem(*store).len(),
    ensures
        final(buf)@.len() == old(buf)@.len(),
        final(buf)@ == store_mem(*store).subrange(
            offset as int,
            offset + old(buf)@.len(),
        ),
{
    if let Some(memory) = instance.get_memory(store, "memory") {
        let _ = memory.read(store, offset, buf.as_mut_slice());
    }
}

/// Relies on `wasmi::Instance::get_memory` and `Memory::write`: copies
/// `data` into `memory[offset .. offset + data.len()]`. The window is
/// checked by the caller to lie within the memory, so the write cannot fail;
/// nothing but those bytes of the memory changes.
#[verifier::external_body]
pub(crate) fn mem_write(
    instance: &wasmi::Instance,
    store: &mut wasmi::Store<()>,
    offset: usize,
    data: &[u8],
)
    requires
        instance_of(*old(store), *instance),
        has_mem(*old(store)),
        offset + data@.len() <= store_mem(*old(store)).len(),
    ensures
        store_same_but_mem(*old(store), *final(store)),
        store_mem(*final(store)) == store_mem(*old(store)).subrange(0, offset as int)
            + data@ + store_mem(*old(store)).skip(offset + data@.len()),
{
    if let Some(memory) = instance.get_memory(&*store, "memory") {
        let _ = memory.write(&mut *store, offset, data);
    }
}

/// Relies on `wasmi::Instance::get_typed_func`: the lookup of
/// `process: () -> i32` succeeds exactly when the instance exports such a
/// function.
#[verifier::external_body]
pub(crate) fn has_entry(instance: &wasmi::Instance, store: &wasmi::Store<()>) -> (r: bool)
    requires
        instance_of(*store, *instance),
    ensures
        r == entry_ok(*store),
{
    instance.get_typed_func::<(), i32>(store, "process").is_ok()
}

/// Relies on `wasmi::Instance::get_typed_func` and `TypedFunc::call`: runs
/// the exported `process` function with no arguments under the store's
/// remaining fuel. With metering on, the call returns a status exactly when
/// running the entry under that budget does not trap. Execution can only
/// consume fuel — the instance has no host imports that could refill it.
/// The instance, its exports and its metering survive the call unchanged;
/// its memory may be written or grown and its globals may change. A trap
/// (fuel exhaustion included) and a missing or mistyped entry are reported
/// as load errors; in the latter case nothing ran and the store is
/// untouched.
#[verifier::external_body]
pub(crate) fn call_entry(instance: &wasmi::Instance, store: &mut wasmi::Store<()>) -> (r: Result<
    i32,
    LwskError,
>)
    requires
        instance_of(*old(store), *instance),
    ensures
        store_fuel(*final(store)) <= store_fuel(*old(store)),
        entry_ok(*final(store)) == entry_ok(*old(store)),
        metered(*final(store)) == metered(*old(store)),
        has_mem(*final(store)) == has_mem(*old(store)),
        store_mem(*final(store)).len() >= store_mem(*old(store)).len(),
        forall|i: wasmi::Instance| #[trigger] instance_of(*final(store), i)
            == instance_of(*old(store), i),
        forall|f: u64|
            entry_ok(*old(store)) && metered(*old(store)) && store_fuel(*old(store)) == f as nat
                ==> (r is Ok <==> !invoke_traps(*old(store), f)),
        !entry_ok(*old(store)) ==> r is Err && *final(store) == *old(store),
        r matches Err(e) ==> e is WasmLoadError,
{
    match instance.get_typed_func::<(), i32>(&*store, "process") {
        Err(_) => Err(LwskError::WasmLoadError),
        Ok(func) => match func.call(&mut *store, ()) {
            Ok(status) => Ok(status),
            Err(_) => Err(LwskError::WasmLoadError),
        },
    }
}

/// Relies on `wasmi::Store::set_fuel`: with metering on it succeeds and the
/// store's remaining fuel is then exactly `amount`; it fails only when fuel
/// metering is disabled, and then changes nothing. No other part of the
/// store's state is touched; in particular what a later invocation of the
/// entry does is unchanged, since an invocation starts by overwriting the
/// fuel anyway.
#[verifier::external_body]
pub(crate) fn set_fuel(store: &mut wasmi::Store<()>, amount: u64) -> (r: Result<(), LwskError>)
    ensures
        forall|i: wasmi::Instance| #[trigger] instance_of(*final(store), i)
            == instance_of(*old(store), i),
        metered(*final(store)) == metered(*old(store)),
        has_mem(*final(store)) == has_mem(*old(store)),
        store_mem(*final(store)) == store_mem(*old(store)),
        forall|n: Seq<char>| #[trigger] global_exists(*final(store), n)
            == global_exists(*old(store), n),
        forall|n: Seq<char>| #[trigger] global_i32(*final(store), n)
            == global_i32(*old(store), n),
        entry_ok(*final(store)) == entry_ok(*old(store)),
        forall|f: u64| #[trigger] invoke_traps(*final(store), f)
            == invoke_traps(*old(store), f),
        r is Ok <==> metered(*old(store)),
        r is Ok ==> store_fuel(*final(store)) == amount as nat,
        r is Err ==> store_fuel(*final(store)) == store_fuel(*old(store)),
        r matches Err(e) ==> e is WasmLoadError,
{
    match store.set_fuel(amount) {
        Ok(()) => Ok(()),
        Err(_) => Err(LwskError::WasmLoadError),
    }
}

/// Relies on `wasmi::Store::get_fuel`: returns the store's remaining fuel;
/// it fails only when fuel metering is disabled.
#[verifier::external_body]
pub(crate) fn get_fuel(store: &wasmi::Store<()>) -> (r: Result<u64, LwskError>)
    ensures
        r is Err ==> !metered(*store),
        r matches Ok(v) ==> v as nat == store_fuel(*store),
        r matches Err(e) ==> e is WasmLoadError,
{
    match store.get_fuel() {
        Ok(v) => Ok(v),
        Err(_) => Err(LwskError::WasmLoadError),
    }
}

} // verus!
