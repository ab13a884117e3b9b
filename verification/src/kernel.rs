use vstd::prelude::*;

use crate::LwskError;
use crate::schedule::{Schedule, ScheduleEntry};
use crate::io::IoDriver;
use crate::wasm;
use crate::wasm::{entry_ok, global_exists, global_i32, has_mem, instance_of, metered, store_mem};

verus! {

/// A place in memory to hold state.
///
/// Channels allow information to be passed between functions, or to and
/// from I/O drivers. The buffer's length is fixed at construction and never
/// changes for the channel's lifetime.
pub struct Channel {
    /// Name of this channel.
    pub name: String,

    /// Buffer backing up the data.
    pub buf: Vec<u8>,
}

/// A sandboxed module plus its kernel-side metadata.
///
/// A function is characterized by a callable entry point named `process`
/// inside the sandbox, executed over configured input data under a hard
/// fuel budget.
pub struct Function {
    /// Name of this function.
    pub name: String,

    /// Index of the channel that this function consumes upon invocation, if any.
    pub consumes: Option<usize>,

    /// Index of the channel that this function provides data to when
    /// terminating, if any.
    pub produces: Option<usize>,

    /// Parsed bytecode module of this function.
    pub wasm_mod: wasmi::Module,

    /// Sandbox engine of this function.
    pub engine: wasmi::Engine,

    /// Sandbox store of this function: its linear memory, globals and fuel.
    pub store: wasmi::Store<()>,

    /// Sandbox instance of this function.
    pub instance: wasmi::Instance,

    /// Upper limit of fuel available per call to this function.
    pub fuel_per_call: u64,
}

/// The named 32-bit global exists in the store, the linear memory `memory`
/// exists, and the window of `len` bytes starting at the global's value lies
/// inside that memory.
pub open spec fn window_ok(s: wasmi::Store<()>, name: Seq<char>, len: nat) -> bool {
    &&& global_i32(s, name) is Some
    &&& 0 <= global_i32(s, name)->Some_0
    &&& has_mem(s)
    &&& global_i32(s, name)->Some_0 + len <= store_mem(s).len()
}

/// The bytes of the window of `len` bytes addressed by the named global.
pub open spec fn window_bytes(s: wasmi::Store<()>, name: Seq<char>, len: nat) -> Seq<u8> {
    store_mem(s).subrange(
        global_i32(s, name)->Some_0,
        global_i32(s, name)->Some_0 + len,
    )
}

/// The bytes available from the named global's value to the end of the
/// linear memory; zero when the value lies outside the memory. This is the
/// `got` payload of the buffer-too-small error.
pub open spec fn window_avail(s: wasmi::Store<()>, name: Seq<char>) -> nat {
    let v = global_i32(s, name)->Some_0;
    if 0 <= v <= store_mem(s).len() {
        (store_mem(s).len() - v) as nat
    } else {
        0
    }
}

/// Both functions carry the same kernel-side metadata and the same sandbox
/// identity; only the store's state may differ.
pub open spec fn same_meta(a: Function, b: Function) -> bool {
    &&& b.name == a.name
    &&& b.consumes == a.consumes
    &&& b.produces == a.produces
    &&& b.wasm_mod == a.wasm_mod
    &&& b.engine == a.engine
    &&& b.instance == a.instance
    &&& b.fuel_per_call == a.fuel_per_call
}

impl Function {
    /// The function's instance lives in its store, so lookups through the
    /// pair are defined.
    pub open spec fn wf(self) -> bool {
        instance_of(self.store, self.instance)
    }

    /// Parse, link and start a sandbox module from its bytecode, returning a
    /// ready function with no channel handles and a zero fuel budget.
    /// Loading succeeds exactly when the bytes parse and validate, link
    /// against the empty import set, and their start function completes.
    pub fn load(name: &str, wasm_bytes: &[u8]) -> (r: Result<Function, LwskError>)
        ensures
            r is Ok <==> wasm::load_ok(wasm_bytes@),
            r matches Ok(f) ==> f.wf() && metered(f.store) && f.name@ == name@
                && f.consumes is None && f.produces is None && f.fuel_per_call == 0,
            r matches Err(e) ==> e is WasmLoadError,
    {
        let (engine, mut store) = wasm::initialize_wasm();

        let module = match wasm::parse_module(&engine, wasm_bytes) {
            Ok(m) => m,
            Err(e) => {
                return Err(e);
            },
        };

        let instance = match wasm::instantiate_and_start(&engine, &mut store, &module) {
            Ok(i) => i,
            Err(e) => {
                return Err(e);
            },
        };

        Ok(Function {
            name: name.to_owned(),
            consumes: None,
            produces: None,
            wasm_mod: module,
            engine,
            store,
            instance,
            fuel_per_call: 0,
        })
    }

    /// Get the value of a 32-bit integer global inside this function's
    /// sandbox module.
    pub fn get_global_idx(&self, ident: &str) -> (r: Result<i32, LwskError>)
        requires
            self.wf(),
        ensures
            r is Ok <==> global_i32(self.store, ident@) is Some,
            r matches Ok(v) ==> global_i32(self.store, ident@) == Some(v as int),
            !global_exists(self.store, ident@) ==> (r matches Err(e)
                && e is GlobalDoesNotExist),
            global_exists(self.store, ident@) && global_i32(self.store, ident@) is None ==> (
            r matches Err(e) && e is UnexpectedWasmType),
    {
        wasm::read_global_i32(&self.instance, &self.store, ident)
    }

    /// Copy out the `len` bytes of linear memory addressed by the named
    /// global. Succeeds exactly when the global exists as a 32-bit integer
    /// and the window fits inside the memory `memory`.
    pub fn get_global(&self, ident: &str, len: usize) -> (r: Result<Vec<u8>, LwskError>)
        requires
            self.wf(),
        ensures
            r is Ok <==> window_ok(self.store, ident@, len as nat),
            r matches Ok(b) ==> b@.len() == len && b@ == window_bytes(
                self.store,
                ident@,
                len as nat,
            ),
            !global_exists(self.store, ident@) ==> (r matches Err(e)
                && e is GlobalDoesNotExist),
            global_exists(self.store, ident@) && global_i32(self.store, ident@) is None ==> (
            r matches Err(e) && e is UnexpectedWasmType),
            global_i32(self.store, ident@) is Some && !has_mem(self.store) ==> (r matches Err(e)
                && e is NoSuchWasmMemory),
            global_i32(self.store, ident@) is Some && has_mem(self.store) && !window_ok(
                self.store,
                ident@,
                len as nat,
            ) ==> (r matches Err(e) && e matches LwskError::BufferTooSmall { expected, got }
                && expected == len && got == window_avail(self.store, ident@)),
    {
        let idx = match self.get_global_idx(ident) {
            Ok(v) => v,
            Err(e) => {
                return Err(e);
            },
        };
        let size = match wasm::mem_size(&self.instance, &self.store) {
            Ok(n) => n,
            Err(e) => {
                return Err(e);
            },
        };
        if idx < 0 {
            return Err(LwskError::BufferTooSmall { expected: len, got: 0 });
        }
        let offset = idx as usize;
        if offset > size || len > size - offset {
            return Err(
                LwskError::BufferTooSmall { expected: len, got: if offset > size { 0 } else { size - offset } },
            );
        }
        let mut buf: Vec<u8> = vec![0u8; len];
        wasm::mem_read(&self.instance, &self.store, offset, &mut buf);
        Ok(buf)
    }

    /// Copy `data` into the window of linear memory addressed by the named
    /// global. Succeeds exactly when that window exists and fits; on failure
    /// nothing is changed.
    pub fn write_global(&mut self, ident: &str, data: &[u8]) -> (r: Result<(), LwskError>)
        requires
            old(self).wf(),
        ensures
            final(self).wf(),
            same_meta(*old(self), *final(self)),
            r is Ok <==> window_ok(old(self).store, ident@, data@.len()),
            r is Ok ==> wasm::store_same_but_mem(old(self).store, final(self).store)
                && window_bytes(final(self).store, ident@, data@.len()) == data@
                && store_mem(final(self).store) == store_mem(old(self).store).subrange(
                    0,
                    global_i32(old(self).store, ident@)->Some_0,
                ) + data@ + store_mem(old(self).store).skip(
                    global_i32(old(self).store, ident@)->Some_0 + data@.len(),
                ),
            r is Err ==> *final(self) == *old(self),
            !global_exists(old(self).store, ident@) ==> (r matches Err(e)
                && e is GlobalDoesNotExist),
            global_exists(old(self).store, ident@) && global_i32(old(self).store, ident@) is None
                ==> (r matches Err(e) && e is UnexpectedWasmType),
            global_i32(old(self).store, ident@) is Some && !has_mem(old(self).store) ==> (
            r matches Err(e) && e is NoSuchWasmMemory),
            global_i32(old(self).store, ident@) is Some && has_mem(old(self).store) && !window_ok(
                old(self).store,
                ident@,
                data@.len(),
            ) ==> (r matches Err(e) && e matches LwskError::BufferTooSmall { expected, got }
                && expected == data@.len() && got == window_avail(old(self).store, ident@)),
    {
        let idx = match self.get_global_idx(ident) {
            Ok(v) => v,
            Err(e) => {
                return Err(e);
            },
        };
        let size = match wasm::mem_size(&self.instance, &self.store) {
            Ok(n) => n,
            Err(e) => {
                return Err(e);
            },
        };
        if idx < 0 {
            return Err(LwskError::BufferTooSmall { expected: data.len(), got: 0 });
        }
        let offset = idx as usize;
        if offset > size || data.len() > size - offset {
            return Err(
                LwskError::BufferTooSmall {
                    expected: data.len(),
                    got: if offset > size { 0 } else { size - offset },
                },
            );
        }
        wasm::mem_write(&self.instance, &mut self.store, offset, data);
        proof {
            assert(store_mem(self.store).subrange(
                offset as int,
                offset + data@.len(),
            ) =~= data@);
        }
        Ok(())
    }

    /// Check that the sandbox module exposes the entry function
    /// `process: () -> i32`; succeeds exactly when it does.
    pub fn get_entry_function(&self) -> (r: Result<(), LwskError>)
        requires
            self.wf(),
        ensures
            r is Ok <==> entry_ok(self.store),
            r matches Err(e) ==> e is WasmLoadError,
    {
        if wasm::has_entry(&self.instance, &self.store) {
            Ok(())
        } else {
            Err(LwskError::WasmLoadError)
        }
    }

    /// Refuel the sandbox to exactly `fuel_per_call`, call `process`, and
    /// return its 32-bit status together with the fuel the invocation
    /// consumed. The fuel consumed never exceeds the budget. A trap
    /// (including fuel exhaustion) or a missing entry function is an error.
    pub fn invoke(&mut self) -> (r: Result<(i32, u64), LwskError>)
        requires
            old(self).wf(),
        ensures
            final(self).wf(),
            same_meta(*old(self), *final(self)),
            entry_ok(final(self).store) == entry_ok(old(self).store),
            metered(final(self).store) == metered(old(self).store),
            has_mem(final(self).store) == has_mem(old(self).store),
            store_mem(final(self).store).len() >= store_mem(old(self).store).len(),
            r matches Ok((status, consumed)) ==> consumed <= old(self).fuel_per_call
                && consumed + wasm::store_fuel(final(self).store)
                == old(self).fuel_per_call,
            metered(old(self).store) && entry_ok(old(self).store) ==> (r is Ok <==> !wasm::invoke_traps(
                old(self).store,
                old(self).fuel_per_call,
            )),
            !entry_ok(old(self).store) ==> r is Err,
            !metered(old(self).store) ==> r is Err,
            r matches Err(e) ==> e is WasmLoadError,
    {
        match wasm::set_fuel(&mut self.store, self.fuel_per_call) {
            Ok(()) => (),
            Err(e) => {
                return Err(e);
            },
        }
        proof {
            assert(wasm::invoke_traps(self.store, self.fuel_per_call) == wasm::invoke_traps(
                old(self).store,
                self.fuel_per_call,
            ));
        }
        let status = match wasm::call_entry(&self.instance, &mut self.store) {
            Ok(s) => s,
            Err(e) => {
                return Err(e);
            },
        };
        let after = match wasm::get_fuel(&self.store) {
            Ok(v) => v,
            Err(e) => {
                return Err(e);
            },
        };
        let consumed = self.fuel_per_call - after;
        Ok((status, consumed))
    }
}

/// A `Wait` entry above this many nanoseconds is flagged as a real-time
/// hygiene concern; it is never an error.
pub const LONG_WAIT_NS: u64 = 10_000_000_000;

/// Every handle of a schedule entry refers to an existing entity.
pub open spec fn entry_in_range(
    e: ScheduleEntry,
    n_functions: nat,
    n_channels: nat,
    n_io: nat,
    n_schedules: nat,
) -> bool {
    match e {
        ScheduleEntry::FunctionInvocation(i) => i < n_functions,
        ScheduleEntry::IoIn { from_io_idx, to_channel_idx } => from_io_idx < n_io
            && to_channel_idx < n_channels,
        ScheduleEntry::IoOut { from_channel_idx, to_io_idx } => from_channel_idx < n_channels
            && to_io_idx < n_io,
        ScheduleEntry::Wait(_) => true,
        ScheduleEntry::SwitchSchedule(k) => k < n_schedules,
    }
}

/// What one dispatcher iteration did, handed back to the caller. Waiting is
/// reported rather than performed, so the caller decides how to idle.
#[derive(Clone, Copy, Debug, PartialEq, Eq, Structural)]
pub enum StepOutcome {
    /// A function ran: its 32-bit status and the fuel the call consumed.
    Invoked { function_idx: usize, status: i32, fuel_consumed: u64 },
    /// A function needed input but exposes no fitting `INPUT` window; the
    /// invocation was skipped and the schedule continues.
    SkippedMissingInput { function_idx: usize },
    /// A driver was polled into a channel; `ok` is false on a swallowed
    /// transport error.
    Pulled { from_io_idx: usize, to_channel_idx: usize, ok: bool },
    /// A channel was pushed out through a driver; `ok` as above.
    Pushed { from_channel_idx: usize, to_io_idx: usize, ok: bool },
    /// The schedule asks to idle for this many nanoseconds.
    Waited { wait_ns: u64 },
    /// Another schedule was made active and its cursor reset.
    Switched { to_schedule_idx: usize },
}

/// Placeholder for future cross-iteration dispatcher state.
pub struct KernelState {}

/// Owning container of all channels, functions, drivers and schedules, plus
/// the cursor naming the active schedule.
pub struct KernelConfig<D> {
    /// Communication channels which can be read from or written to by
    /// either functions or I/O drivers.
    pub channels: Vec<Channel>,

    /// Available functions and their sandbox state.
    pub functions: Vec<Function>,

    /// There can be multiple schedules; one of them is active at a time.
    pub schedules: Vec<Schedule>,

    /// I/O drivers which connect external information sources and sinks to
    /// channels.
    pub io: Vec<D>,

    /// Index of the active schedule.
    pub current_schedule_idx: usize,
}

impl<D> KernelConfig<D> {
    /// Every function's instance lives in its store.
    pub open spec fn wf_functions(self) -> bool {
        forall|i: int| 0 <= i < self.functions@.len() ==> (#[trigger] self.functions@[i]).wf()
    }

    /// The channel handles of the function at `i` refer to existing
    /// channels.
    pub open spec fn fn_handles_ok(self, i: int) -> bool {
        &&& (self.functions@[i].consumes matches Some(ci) ==> ci < self.channels@.len())
        &&& (self.functions@[i].produces matches Some(pi) ==> pi < self.channels@.len())
    }

    /// What validation checks of the function at `i`: its channel handles
    /// resolve, the corresponding `INPUT`/`OUTPUT` windows exist and fit the
    /// channel's size, and the entry function is exported.
    pub open spec fn fn_checked(self, i: int) -> bool {
        &&& self.fn_handles_ok(i)
        &&& (self.functions@[i].consumes matches Some(ci) ==> window_ok(
            self.functions@[i].store,
            "INPUT"@,
            self.channels@[ci as int].buf@.len(),
        ))
        &&& (self.functions@[i].produces matches Some(pi) ==> window_ok(
            self.functions@[i].store,
            "OUTPUT"@,
            self.channels@[pi as int].buf@.len(),
        ))
        &&& entry_ok(self.functions@[i].store)
    }

    /// Every handle in every schedule entry refers to an existing entity;
    /// in particular every `SwitchSchedule` target is a valid schedule
    /// index.
    pub open spec fn sched_entries_ok(self) -> bool {
        forall|s: int, j: int|
            0 <= s < self.schedules@.len() && 0 <= j < self.schedules@[s].sequence@.len()
                ==> entry_in_range(
                #[trigger] self.schedules@[s].sequence@[j],
                self.functions@.len(),
                self.channels@.len(),
                self.io@.len(),
                self.schedules@.len(),
            )
    }

    /// Everything `validate` establishes.
    pub open spec fn valid_spec(self) -> bool {
        &&& forall|i: int| 0 <= i < self.functions@.len() ==> #[trigger] self.fn_checked(i)
        &&& self.sched_entries_ok()
    }

    /// There is a `Wait` entry of more than [`LONG_WAIT_NS`] nanoseconds at
    /// position `j` of schedule `s`.
    pub open spec fn long_wait_at(self, s: int, j: int) -> bool {
        &&& 0 <= s < self.schedules@.len()
        &&& 0 <= j < self.schedules@[s].sequence@.len()
        &&& self.schedules@[s].sequence@[j] matches ScheduleEntry::Wait(ns) && ns > LONG_WAIT_NS
    }

    /// Some schedule holds a `Wait` entry of more than [`LONG_WAIT_NS`]
    /// nanoseconds.
    pub open spec fn spec_has_long_wait(self) -> bool {
        exists|s: int, j: int| self.long_wait_at(s, j)
    }

    /// The first check of the function at `i` to fail, in validation
    /// order — consumes handle, `INPUT` window, produces handle, `OUTPUT`
    /// window, entry function — with the error it yields; `None` when all
    /// pass.
    pub open spec fn fn_error(self, i: int) -> Option<LwskError> {
        match self.functions@[i].consumes {
            Some(ci) => if ci >= self.channels@.len() {
                Some(LwskError::InvalidChannelIdx(ci))
            } else if !window_ok(
                self.functions@[i].store,
                "INPUT"@,
                self.channels@[ci as int].buf@.len(),
            ) {
                Some(LwskError::WasmLoadError)
            } else {
                self.fn_error_past_consumes(i)
            },
            None => self.fn_error_past_consumes(i),
        }
    }

    /// The rest of the function checks after the consumes side: produces
    /// handle, `OUTPUT` window, entry function.
    pub open spec fn fn_error_past_consumes(self, i: int) -> Option<LwskError> {
        match self.functions@[i].produces {
            Some(pi) => if pi >= self.channels@.len() {
                Some(LwskError::InvalidChannelIdx(pi))
            } else if !window_ok(
                self.functions@[i].store,
                "OUTPUT"@,
                self.channels@[pi as int].buf@.len(),
            ) {
                Some(LwskError::WasmLoadError)
            } else if !entry_ok(self.functions@[i].store) {
                Some(LwskError::WasmLoadError)
            } else {
                None
            },
            None => if !entry_ok(self.functions@[i].store) {
                Some(LwskError::WasmLoadError)
            } else {
                None
            },
        }
    }

    /// The first dangling handle of one schedule entry, in validation
    /// order, with the error it yields; `None` when all its handles exist.
    pub open spec fn entry_error(self, e: ScheduleEntry) -> Option<LwskError> {
        match e {
            ScheduleEntry::FunctionInvocation(i) => if i >= self.functions@.len() {
                Some(LwskError::InvalidFunctionIdx(i))
            } else {
                None
            },
            ScheduleEntry::IoIn { from_io_idx, to_channel_idx } => if from_io_idx
                >= self.io@.len() {
                Some(LwskError::InvalidIoIdx(from_io_idx))
            } else if to_channel_idx >= self.channels@.len() {
                Some(LwskError::InvalidChannelIdx(to_channel_idx))
            } else {
                None
            },
            ScheduleEntry::IoOut { from_channel_idx, to_io_idx } => if from_channel_idx
                >= self.channels@.len() {
                Some(LwskError::InvalidChannelIdx(from_channel_idx))
            } else if to_io_idx >= self.io@.len() {
                Some(LwskError::InvalidIoIdx(to_io_idx))
            } else {
                None
            },
            ScheduleEntry::Wait(_) => None,
            ScheduleEntry::SwitchSchedule(k) => if k >= self.schedules@.len() {
                Some(LwskError::WasmLoadError)
            } else {
                None
            },
        }
    }

    /// The first function error at or after position `i`.
    pub open spec fn first_fn_error_from(self, i: int) -> Option<LwskError>
        decreases self.functions@.len() - i,
        when 0 <= i <= self.functions@.len()
    {
        if i >= self.functions@.len() {
            None
        } else {
            match self.fn_error(i) {
                Some(e) => Some(e),
                None => self.first_fn_error_from(i + 1),
            }
        }
    }

    /// The first schedule-entry error at or after position `j` of schedule
    /// `s`, scanning schedules in order and entries in order.
    pub open spec fn first_entry_error_from(self, s: int, j: int) -> Option<LwskError>
        decreases self.schedules@.len() - s, self.schedules@[s].sequence@.len() - j,
        when 0 <= s <= self.schedules@.len() && 0 <= j
    {
        if s >= self.schedules@.len() {
            None
        } else if j >= self.schedules@[s].sequence@.len() {
            self.first_entry_error_from(s + 1, 0)
        } else {
            match self.entry_error(self.schedules@[s].sequence@[j]) {
                Some(e) => Some(e),
                None => self.first_entry_error_from(s, j + 1),
            }
        }
    }

    /// The exact verdict of validation: the first error found scanning all
    /// functions in order, then all schedule entries in order; `None` when
    /// the configuration is valid.
    pub open spec fn validation_verdict(self) -> Option<LwskError> {
        match self.first_fn_error_from(0) {
            Some(e) => Some(e),
            None => self.first_entry_error_from(0, 0),
        }
    }

    /// A clear scan suffix of the functions yields no error.
    proof fn lemma_fn_scan_clear(self, i: int)
        requires
            0 <= i <= self.functions@.len(),
            forall|k: int| i <= k < self.functions@.len() ==> #[trigger] self.fn_error(k) is None,
        ensures
            self.first_fn_error_from(i) is None,
        decreases self.functions@.len() - i,
    {
        if i < self.functions@.len() {
            self.lemma_fn_scan_clear(i + 1);
        }
    }

    /// The function scan from a clear prefix yields the first failing
    /// function's error.
    proof fn lemma_fn_scan_hits(self, i: int, t: int)
        requires
            0 <= i <= t < self.functions@.len(),
            forall|k: int| i <= k < t ==> #[trigger] self.fn_error(k) is None,
            self.fn_error(t) is Some,
        ensures
            self.first_fn_error_from(i) == self.fn_error(t),
        decreases t - i,
    {
        if i < t {
            self.lemma_fn_scan_hits(i + 1, t);
        }
    }

    /// A schedule whose entries are clear from `j` on contributes nothing
    /// to the scan.
    proof fn lemma_sched_scan_skip(self, s: int, j: int)
        requires
            0 <= s < self.schedules@.len(),
            0 <= j <= self.schedules@[s].sequence@.len(),
            forall|j2: int|
                j <= j2 < self.schedules@[s].sequence@.len() ==> #[trigger] self.entry_error(
                    self.schedules@[s].sequence@[j2],
                ) is None,
        ensures
            self.first_entry_error_from(s, j) == self.first_entry_error_from(s + 1, 0),
        decreases self.schedules@[s].sequence@.len() - j,
    {
        if j < self.schedules@[s].sequence@.len() {
            self.lemma_sched_scan_skip(s, j + 1);
        }
    }

    /// The schedule scan from a clear prefix of one schedule yields the
    /// first failing entry's error of that schedule.
    proof fn lemma_sched_scan_hits(self, s: int, j: int, jt: int)
        requires
            0 <= s < self.schedules@.len(),
            0 <= j <= jt < self.schedules@[s].sequence@.len(),
            forall|j2: int|
                j <= j2 < jt ==> #[trigger] self.entry_error(
                    self.schedules@[s].sequence@[j2],
                ) is None,
            self.entry_error(self.schedules@[s].sequence@[jt]) is Some,
        ensures
            self.first_entry_error_from(s, j) == self.entry_error(
                self.schedules@[s].sequence@[jt],
            ),
        decreases jt - j,
    {
        if j < jt {
            self.lemma_sched_scan_hits(s, j + 1, jt);
        }
    }

    /// The schedule scan over fully clear schedules yields the first
    /// failing entry's error of the first failing schedule.
    proof fn lemma_sched_scan_across(self, s: int, st: int, jt: int)
        requires
            0 <= s <= st < self.schedules@.len(),
            0 <= jt < self.schedules@[st].sequence@.len(),
            forall|s2: int, j2: int|
                s <= s2 < st && 0 <= j2 < self.schedules@[s2].sequence@.len()
                    ==> #[trigger] self.entry_error(self.schedules@[s2].sequence@[j2]) is None,
            forall|j2: int|
                0 <= j2 < jt ==> #[trigger] self.entry_error(
                    self.schedules@[st].sequence@[j2],
                ) is None,
            self.entry_error(self.schedules@[st].sequence@[jt]) is Some,
        ensures
            self.first_entry_error_from(s, 0) == self.entry_error(
                self.schedules@[st].sequence@[jt],
            ),
        decreases st - s,
    {
        if s < st {
            self.lemma_sched_scan_skip(s, 0);
            self.lemma_sched_scan_across(s + 1, st, jt);
        } else {
            self.lemma_sched_scan_hits(st, 0, jt);
        }
    }

    /// With every function before `i` passing its checks and the function
    /// at `i` failing, validation's verdict is that function's error.
    proof fn lemma_verdict_at_fn(self, i: int)
        requires
            0 <= i < self.functions@.len(),
            forall|k: int| 0 <= k < i ==> #[trigger] self.fn_checked(k),
            self.fn_error(i) is Some,
        ensures
            self.validation_verdict() == self.fn_error(i),
    {
        assert forall|k: int| 0 <= k < i implies #[trigger] self.fn_error(k) is None by {
            assert(self.fn_checked(k));
        }
        self.lemma_fn_scan_hits(0, i);
    }

    /// With every function passing its checks and every schedule entry
    /// before position `j` of schedule `s` in range, a failing entry there
    /// makes validation's verdict that entry's error.
    proof fn lemma_verdict_at_entry(self, s: int, j: int)
        requires
            forall|k: int| 0 <= k < self.functions@.len() ==> #[trigger] self.fn_checked(k),
            0 <= s < self.schedules@.len(),
            0 <= j < self.schedules@[s].sequence@.len(),
            forall|s2: int, j2: int|
                0 <= s2 < s && 0 <= j2 < self.schedules@[s2].sequence@.len() ==> entry_in_range(
                    #[trigger] self.schedules@[s2].sequence@[j2],
                    self.functions@.len(),
                    self.channels@.len(),
                    self.io@.len(),
                    self.schedules@.len(),
                ),
            forall|j2: int|
                0 <= j2 < j ==> entry_in_range(
                    #[trigger] self.schedules@[s].sequence@[j2],
                    self.functions@.len(),
                    self.channels@.len(),
                    self.io@.len(),
                    self.schedules@.len(),
                ),
            self.entry_error(self.schedules@[s].sequence@[j]) is Some,
        ensures
            self.validation_verdict() == self.entry_error(self.schedules@[s].sequence@[j]),
    {
        assert forall|k: int|
            0 <= k < self.functions@.len() implies #[trigger] self.fn_error(k) is None by {
            assert(self.fn_checked(k));
        }
        self.lemma_fn_scan_clear(0);
        assert forall|s2: int, j2: int|
            0 <= s2 < s && 0 <= j2 < self.schedules@[s2].sequence@.len() implies
            #[trigger] self.entry_error(self.schedules@[s2].sequence@[j2]) is None by {
            assert(entry_in_range(
                self.schedules@[s2].sequence@[j2],
                self.functions@.len(),
                self.channels@.len(),
                self.io@.len(),
                self.schedules@.len(),
            ));
        }
        assert forall|j2: int| 0 <= j2 < j implies #[trigger] self.entry_error(
            self.schedules@[s].sequence@[j2],
        ) is None by {
            assert(entry_in_range(
                self.schedules@[s].sequence@[j2],
                self.functions@.len(),
                self.channels@.len(),
                self.io@.len(),
                self.schedules@.len(),
            ));
        }
        self.lemma_sched_scan_across(0, s, j);
    }

    /// The configuration can be dispatched: functions are well formed, all
    /// handles are in range, and there is an active, well-formed schedule.
    pub open spec fn runnable(self) -> bool {
        &&& self.wf_functions()
        &&& forall|i: int| 0 <= i < self.functions@.len() ==> #[trigger] self.fn_handles_ok(i)
        &&& self.sched_entries_ok()
        &&& self.schedules@.len() > 0
        &&& self.current_schedule_idx < self.schedules@.len()
        &&& forall|s: int| 0 <= s < self.schedules@.len() ==> (#[trigger] self.schedules@[s]).wf()
    }

    /// The entry the dispatcher will execute next: the one after the active
    /// schedule's cursor, wrapping around.
    pub open spec fn next_entry(self) -> ScheduleEntry {
        let sch = self.schedules@[self.current_schedule_idx as int];
        sch.sequence@[(sch.current_action + 1) % (sch.sequence@.len() as int)]
    }

    /// A dispatcher iteration never changes the set of channels, their
    /// names or their sizes, nor any function's metadata or sandbox
    /// identity, nor the set of schedules and their sequences, nor the
    /// number of drivers.
    pub open spec fn same_shape(pre: Self, post: Self) -> bool {
        &&& post.channels@.len() == pre.channels@.len()
        &&& forall|i: int|
            0 <= i < pre.channels@.len() ==> (#[trigger] post.channels@[i]).name
                == pre.channels@[i].name && post.channels@[i].buf@.len()
                == pre.channels@[i].buf@.len()
        &&& post.functions@.len() == pre.functions@.len()
        &&& forall|i: int|
            0 <= i < pre.functions@.len() ==> same_meta(
                pre.functions@[i],
                #[trigger] post.functions@[i],
            )
        &&& post.io@.len() == pre.io@.len()
        &&& post.schedules@.len() == pre.schedules@.len()
        &&& forall|s: int|
            0 <= s < pre.schedules@.len() ==> (#[trigger] post.schedules@[s]).name
                == pre.schedules@[s].name && post.schedules@[s].sequence
                == pre.schedules@[s].sequence
    }

    /// Only the active schedule's cursor advanced by one, wrapping; nothing
    /// else of the schedules changed.
    pub open spec fn advanced_cursor(pre: Self, post: Self) -> bool {
        &&& post.current_schedule_idx == pre.current_schedule_idx
        &&& forall|s: int|
            0 <= s < pre.schedules@.len() && s != pre.current_schedule_idx
                ==> #[trigger] post.schedules@[s] == pre.schedules@[s]
        &&& post.schedules@[pre.current_schedule_idx as int].current_action as int == (
        pre.schedules@[pre.current_schedule_idx as int].current_action + 1) % (
        pre.schedules@[pre.current_schedule_idx as int].sequence@.len() as int)
    }

    /// The dispatcher switched to schedule `k`: `k` is now active with its
    /// cursor reset to the start, the previously active schedule advanced
    /// over the switch entry, and all other schedules are untouched.
    pub open spec fn switched_to(pre: Self, post: Self, k: int) -> bool {
        &&& post.current_schedule_idx == k
        &&& post.schedules@[k].current_action == 0
        &&& (pre.current_schedule_idx != k ==> post.schedules@[pre.current_schedule_idx as int].current_action as int
            == (pre.schedules@[pre.current_schedule_idx as int].current_action + 1) % (
            pre.schedules@[pre.current_schedule_idx as int].sequence@.len() as int))
        &&& forall|s: int|
            0 <= s < pre.schedules@.len() && s != pre.current_schedule_idx && s != k
                ==> #[trigger] post.schedules@[s] == pre.schedules@[s]
    }

    /// What executing a `FunctionInvocation(fi)` entry guarantees. On a
    /// completed invocation the fuel consumed is bounded by the function's
    /// budget, and the produced channel (if any) holds exactly the bytes of
    /// the function's `OUTPUT` window after the call; every other channel is
    /// untouched. When the function requires input but exposes no fitting
    /// `INPUT` window, nothing runs and nothing changes. A trap or a missing
    /// entry function is a fatal error.
    pub open spec fn function_post(
        pre: Self,
        post: Self,
        r: Result<StepOutcome, LwskError>,
        fi: int,
    ) -> bool {
        &&& post.current_schedule_idx == pre.current_schedule_idx
        &&& post.io@ == pre.io@
        &&& (pre.functions@[fi].consumes is None && pre.functions@[fi].produces is None
            && metered(pre.functions@[fi].store) && entry_ok(pre.functions@[fi].store) ==> ((
        r matches Ok(o) && o is Invoked) <==> !wasm::invoke_traps(
            pre.functions@[fi].store,
            pre.functions@[fi].fuel_per_call,
        )))
        &&& (r matches Ok(o) ==> match o {
            StepOutcome::Invoked { function_idx, status, fuel_consumed } => {
                &&& function_idx == fi
                &&& fuel_consumed <= pre.functions@[fi].fuel_per_call
                &&& fuel_consumed + wasm::store_fuel(post.functions@[fi].store)
                    == pre.functions@[fi].fuel_per_call
                &&& match pre.functions@[fi].produces {
                    Some(p) => {
                        &&& window_ok(
                            post.functions@[fi].store,
                            "OUTPUT"@,
                            pre.channels@[p as int].buf@.len(),
                        )
                        &&& post.channels@[p as int].buf@ == window_bytes(
                            post.functions@[fi].store,
                            "OUTPUT"@,
                            pre.channels@[p as int].buf@.len(),
                        )
                        &&& forall|i: int|
                            0 <= i < pre.channels@.len() && i != p
                                ==> #[trigger] post.channels@[i] == pre.channels@[i]
                    },
                    None => post.channels@ == pre.channels@,
                }
            },
            StepOutcome::SkippedMissingInput { function_idx } => {
                &&& function_idx == fi
                &&& pre.functions@[fi].consumes matches Some(ci) && !window_ok(
                    pre.functions@[fi].store,
                    "INPUT"@,
                    pre.channels@[ci as int].buf@.len(),
                )
                &&& post.channels@ == pre.channels@
                &&& post.functions@ == pre.functions@
            },
            _ => false,
        })
        &&& (r matches Err(e) ==> e is WasmLoadError || e is GlobalDoesNotExist
            || e is UnexpectedWasmType || e is NoSuchWasmMemory || e is BufferTooSmall)
    }

    /// A dispatcher iteration preserves runnability: the shape is kept, the
    /// functions stay well formed, the active index stays in range and every
    /// cursor stays inside its sequence.
    pub proof fn lemma_same_shape_runnable(pre: Self, post: Self)
        requires
            pre.runnable(),
            Self::same_shape(pre, post),
            post.wf_functions(),
            post.current_schedule_idx < post.schedules@.len(),
            forall|s: int|
                0 <= s < post.schedules@.len() ==> (#[trigger] post.schedules@[s]).current_action
                    < post.schedules@[s].sequence@.len(),
        ensures
            post.runnable(),
    {
        assert forall|i: int| 0 <= i < post.functions@.len() implies #[trigger] post.fn_handles_ok(
            i,
        ) by {
            assert(pre.fn_handles_ok(i));
            assert(same_meta(pre.functions@[i], post.functions@[i]));
        }
        assert forall|s: int, j: int|
            0 <= s < post.schedules@.len() && 0 <= j < post.schedules@[s].sequence@.len() implies
            entry_in_range(
                #[trigger] post.schedules@[s].sequence@[j],
                post.functions@.len(),
                post.channels@.len(),
                post.io@.len(),
                post.schedules@.len(),
            ) by {
            assert(post.schedules@[s].sequence == pre.schedules@[s].sequence);
            assert(entry_in_range(
                pre.schedules@[s].sequence@[j],
                pre.functions@.len(),
                pre.channels@.len(),
                pre.io@.len(),
                pre.schedules@.len(),
            ));
        }
        assert forall|s: int| 0 <= s < post.schedules@.len() implies (
        #[trigger] post.schedules@[s]).wf() by {
            assert(post.schedules@[s].sequence == pre.schedules@[s].sequence);
        }
    }

    /// Checks that the configuration is valid.
    ///
    /// For each function, the `consumes`/`produces` handle (if set) points
    /// to an existing channel and the corresponding `INPUT`/`OUTPUT` global
    /// exists as a 32-bit integer whose memory window fits the channel's
    /// size, and the entry function is exported. For each schedule entry,
    /// every referenced function, channel, driver and schedule exists.
    ///
    /// The verdict depends on the configuration alone and the configuration
    /// is not changed, so validation is pure and idempotent: the contract
    /// pins the result to `valid_spec` exactly.
    pub fn validate(&self) -> (r: Result<(), LwskError>)
        requires
            self.wf_functions(),
        ensures
            r is Ok <==> self.valid_spec(),
            r matches Err(e) ==> self.validation_verdict() == Some(e),
    {
        let mut fi: usize = 0;
        while fi < self.functions.len()
            invariant
                self.wf_functions(),
                fi <= self.functions@.len(),
                forall|i: int| 0 <= i < fi ==> #[trigger] self.fn_checked(i),
            decreases self.functions@.len() - fi,
        {
            match self.functions[fi].consumes {
                Some(channel_idx) => {
                    if channel_idx >= self.channels.len() {
                        proof {
                            assert(!self.fn_checked(fi as int));
                            assert(self.fn_error(fi as int) == Some(LwskError::InvalidChannelIdx(channel_idx)));
                            self.lemma_verdict_at_fn(fi as int);
                        }
                        return Err(LwskError::InvalidChannelIdx(channel_idx));
                    }
                    let want = self.channels[channel_idx].buf.len();
                    if self.functions[fi].get_global("INPUT", want).is_err() {
                        proof {
                            assert(!self.fn_checked(fi as int));
                            assert(self.fn_error(fi as int) == Some(LwskError::WasmLoadError));
                            self.lemma_verdict_at_fn(fi as int);
                        }
                        return Err(LwskError::WasmLoadError);
                    }
                },
                None => {},
            }
            match self.functions[fi].produces {
                Some(channel_idx) => {
                    if channel_idx >= self.channels.len() {
                        proof {
                            assert(!self.fn_checked(fi as int));
                            assert(self.fn_error(fi as int) == Some(LwskError::InvalidChannelIdx(channel_idx)));
                            self.lemma_verdict_at_fn(fi as int);
                        }
                        return Err(LwskError::InvalidChannelIdx(channel_idx));
                    }
                    let want = self.channels[channel_idx].buf.len();
                    if self.functions[fi].get_global("OUTPUT", want).is_err() {
                        proof {
                            assert(!self.fn_checked(fi as int));
                            assert(self.fn_error(fi as int) == Some(LwskError::WasmLoadError));
                            self.lemma_verdict_at_fn(fi as int);
                        }
                        return Err(LwskError::WasmLoadError);
                    }
                },
                None => {},
            }
            if self.functions[fi].get_entry_function().is_err() {
                        proof {
                            assert(!self.fn_checked(fi as int));
                            assert(self.fn_error(fi as int) == Some(LwskError::WasmLoadError));
                            self.lemma_verdict_at_fn(fi as int);
                        }
                return Err(LwskError::WasmLoadError);
            }
            fi += 1;
        }
        let mut s: usize = 0;
        while s < self.schedules.len()
            invariant
                s <= self.schedules@.len(),
                forall|i: int| 0 <= i < self.functions@.len() ==> #[trigger] self.fn_checked(i),
                forall|s2: int, j: int|
                    0 <= s2 < s && 0 <= j < self.schedules@[s2].sequence@.len()
                        ==> entry_in_range(
                        #[trigger] self.schedules@[s2].sequence@[j],
                        self.functions@.len(),
                        self.channels@.len(),
                        self.io@.len(),
                        self.schedules@.len(),
                    ),
            decreases self.schedules@.len() - s,
        {
            let sched = &self.schedules[s];
            let mut j: usize = 0;
            while j < sched.sequence.len()
                invariant
                    s < self.schedules@.len(),
                    sched == self.schedules@[s as int],
                    j <= sched.sequence@.len(),
                    forall|i: int| 0 <= i < self.functions@.len() ==> #[trigger] self.fn_checked(i),
                    forall|s2: int, j2: int|
                        0 <= s2 < s && 0 <= j2 < self.schedules@[s2].sequence@.len()
                            ==> entry_in_range(
                            #[trigger] self.schedules@[s2].sequence@[j2],
                            self.functions@.len(),
                            self.channels@.len(),
                            self.io@.len(),
                            self.schedules@.len(),
                        ),
                    forall|j2: int|
                        0 <= j2 < j ==> entry_in_range(
                            #[trigger] sched.sequence@[j2],
                            self.functions@.len(),
                            self.channels@.len(),
                            self.io@.len(),
                            self.schedules@.len(),
                        ),
                decreases sched.sequence@.len() - j,
            {
                match sched.sequence[j] {
                    ScheduleEntry::FunctionInvocation(function_idx) => {
                        if function_idx >= self.functions.len() {
                        proof {
                                assert(!entry_in_range(
                                    self.schedules@[s as int].sequence@[j as int],
                                    self.functions@.len(),
                                    self.channels@.len(),
                                    self.io@.len(),
                                    self.schedules@.len(),
                                ));
                                assert(self.entry_error(
                                    self.schedules@[s as int].sequence@[j as int],
                                ) == Some(LwskError::InvalidFunctionIdx(function_idx)));
                                self.lemma_verdict_at_entry(s as int, j as int);
                            }
                            return Err(LwskError::InvalidFunctionIdx(function_idx));
                        }
                    },
                    ScheduleEntry::IoIn { from_io_idx, to_channel_idx } => {
                        if from_io_idx >= self.io.len() {
                        proof {
                                assert(!entry_in_range(
                                    self.schedules@[s as int].sequence@[j as int],
                                    self.functions@.len(),
                                    self.channels@.len(),
                                    self.io@.len(),
                                    self.schedules@.len(),
                                ));
                                assert(self.entry_error(
                                    self.schedules@[s as int].sequence@[j as int],
                                ) == Some(LwskError::InvalidIoIdx(from_io_idx)));
                                self.lemma_verdict_at_entry(s as int, j as int);
                            }
                            return Err(LwskError::InvalidIoIdx(from_io_idx));
                        }
                        if to_channel_idx >= self.channels.len() {
                        proof {
                                assert(!entry_in_range(
                                    self.schedules@[s as int].sequence@[j as int],
                                    self.functions@.len(),
                                    self.channels@.len(),
                                    self.io@.len(),
                                    self.schedules@.len(),
                                ));
                                assert(self.entry_error(
                                    self.schedules@[s as int].sequence@[j as int],
                                ) == Some(LwskError::InvalidChannelIdx(to_channel_idx)));
                                self.lemma_verdict_at_entry(s as int, j as int);
                            }
                            return Err(LwskError::InvalidChannelIdx(to_channel_idx));
                        }
                    },
                    ScheduleEntry::IoOut { from_channel_idx, to_io_idx } => {
                        if from_channel_idx >= self.channels.len() {
                        proof {
                                assert(!entry_in_range(
                                    self.schedules@[s as int].sequence@[j as int],
                                    self.functions@.len(),
                                    self.channels@.len(),
                                    self.io@.len(),
                                    self.schedules@.len(),
                                ));
                                assert(self.entry_error(
                                    self.schedules@[s as int].sequence@[j as int],
                                ) == Some(LwskError::InvalidChannelIdx(from_channel_idx)));
                                self.lemma_verdict_at_entry(s as int, j as int);
                            }
                            return Err(LwskError::InvalidChannelIdx(from_channel_idx));
                        }
                        if to_io_idx >= self.io.len() {
                        proof {
                                assert(!entry_in_range(
                                    self.schedules@[s as int].sequence@[j as int],
                                    self.functions@.len(),
                                    self.channels@.len(),
                                    self.io@.len(),
                                    self.schedules@.len(),
                                ));
                                assert(self.entry_error(
                                    self.schedules@[s as int].sequence@[j as int],
                                ) == Some(LwskError::InvalidIoIdx(to_io_idx)));
                                self.lemma_verdict_at_entry(s as int, j as int);
                            }
                            return Err(LwskError::InvalidIoIdx(to_io_idx));
                        }
                    },
                    ScheduleEntry::Wait(_) => {
                        // long waits are a warning, surfaced by `has_long_wait`,
                        // never an error
                    },
                    ScheduleEntry::SwitchSchedule(schedule_idx) => {
                        if schedule_idx >= self.schedules.len() {
                            proof {
                                assert(!entry_in_range(
                                    self.schedules@[s as int].sequence@[j as int],
                                    self.functions@.len(),
                                    self.channels@.len(),
                                    self.io@.len(),
                                    self.schedules@.len(),
                                ));
                                assert(self.entry_error(
                                    self.schedules@[s as int].sequence@[j as int],
                                ) == Some(LwskError::WasmLoadError));
                                self.lemma_verdict_at_entry(s as int, j as int);
                            }
                            return Err(LwskError::WasmLoadError);
                        }
                    },
                }
                j += 1;
            }
            s += 1;
        }
        Ok(())
    }

    /// True exactly when some schedule holds a `Wait` entry above
    /// [`LONG_WAIT_NS`] nanoseconds. Such an entry might hurt real-time
    /// performance; the caller should report it as a warning.
    pub fn has_long_wait(&self) -> (r: bool)
        ensures
            r == self.spec_has_long_wait(),
    {
        let mut s: usize = 0;
        while s < self.schedules.len()
            invariant
                s <= self.schedules@.len(),
                forall|s2: int, j: int| s2 < s ==> !self.long_wait_at(s2, j),
            decreases self.schedules@.len() - s,
        {
            let sched = &self.schedules[s];
            let mut j: usize = 0;
            while j < sched.sequence.len()
                invariant
                    s < self.schedules@.len(),
                    sched == self.schedules@[s as int],
                    j <= sched.sequence@.len(),
                    forall|s2: int, j2: int| s2 < s ==> !self.long_wait_at(s2, j2),
                    forall|j2: int| j2 < j ==> !self.long_wait_at(s as int, j2),
                decreases sched.sequence@.len() - j,
            {
                match sched.sequence[j] {
                    ScheduleEntry::Wait(ns) => {
                        if ns > LONG_WAIT_NS {
                            proof {
                                assert(self.long_wait_at(s as int, j as int));
                            }
                            return true;
                        }
                    },
                    _ => {},
                }
                j += 1;
            }
            s += 1;
        }
            proof {
            assert forall|s2: int, j2: int| !self.long_wait_at(s2, j2) by {
                if 0 <= s2 < self.schedules@.len() {
                    assert(!self.long_wait_at(s2, j2));
                }
            }
        }
        false
    }
}

/// Every schedule-switch entry of a validated configuration targets an
/// existing schedule, so switching can never leave the dispatcher without
/// an active schedule.
pub proof fn lemma_switch_targets_valid<D>(c: KernelConfig<D>, s: int, j: int, k: usize)
    requires
        c.valid_spec(),
        0 <= s < c.schedules@.len(),
        0 <= j < c.schedules@[s].sequence@.len(),
        c.schedules@[s].sequence@[j] == ScheduleEntry::SwitchSchedule(k),
    ensures
        (k as nat) < c.schedules@.len(),
{
    assert(entry_in_range(
        c.schedules@[s].sequence@[j],
        c.functions@.len(),
        c.channels@.len(),
        c.io@.len(),
        c.schedules@.len(),
    ));
}

/// Copy a byte vector; channels are small fixed-size buffers.
fn clone_bytes(v: &Vec<u8>) -> (r: Vec<u8>)
    ensures
        r@ == v@,
{
    let mut out: Vec<u8> = Vec::new();
    let mut i: usize = 0;
    while i < v.len()
        invariant
            i <= v@.len(),
            out@ == v@.subrange(0, i as int),
        decreases v@.len() - i,
    {
        out.push(v[i]);
        i += 1;
    }
    proof {
        assert(out@ =~= v@);
    }
    out
}

impl<D: IoDriver> KernelConfig<D> {
    /// Execute a `FunctionInvocation` entry: copy the consumed channel into
    /// the sandbox's `INPUT` window, refuel, call `process`, and copy the
    /// `OUTPUT` window back into the produced channel. A missing or unfit
    /// `INPUT` window skips the invocation with a warning outcome; any
    /// later failure is fatal.
    fn run_function(&mut self, fi: usize) -> (r: Result<StepOutcome, LwskError>)
        requires
            old(self).wf_functions(),
            fi < old(self).functions@.len(),
            old(self).fn_handles_ok(fi as int),
        ensures
            final(self).wf_functions(),
            Self::same_shape(*old(self), *final(self)),
            final(self).schedules == old(self).schedules,
            Self::function_post(*old(self), *final(self), r, fi as int),
    {
        let consumes = self.functions[fi].consumes;
        let produces = self.functions[fi].produces;

        // set input if necessary
        match consumes {
            Some(channel_idx) => {
                let input = clone_bytes(&self.channels[channel_idx].buf);
                let f = &mut self.functions[fi];
                match f.write_global("INPUT", input.as_slice()) {
                    Ok(()) => {},
                    Err(_) => {
                        proof {
                            assert(self.functions@ =~= old(self).functions@);
                        }
                        return Ok(StepOutcome::SkippedMissingInput { function_idx: fi });
                    },
                }
            },
            None => {},
        }

        let out_len: usize = match produces {
            Some(channel_idx) => self.channels[channel_idx].buf.len(),
            None => 0,
        };

        // refuel and call the entry function
        let f = &mut self.functions[fi];
        let (status, fuel_consumed) = match f.invoke() {
            Ok(x) => x,
            Err(e) => {
                return Err(e);
            },
        };

        // retrieve outputs if necessary
        match produces {
            Some(channel_idx) => {
                let f = &self.functions[fi];
                let out = match f.get_global("OUTPUT", out_len) {
                    Ok(b) => b,
                    Err(e) => {
                        return Err(e);
                    },
                };
                let ch = &mut self.channels[channel_idx];
                ch.buf = out;
            },
            None => {},
        }

        Ok(StepOutcome::Invoked { function_idx: fi, status, fuel_consumed })
    }

    /// One dispatcher iteration: fetch the next entry of the active
    /// schedule and execute it. Channel count, names and sizes are
    /// preserved, as is every function's metadata and every schedule's
    /// sequence; the configuration stays runnable, so the loop can go on
    /// forever. Transport errors of drivers are swallowed; sandbox traps
    /// are fatal. A `Waited` outcome asks the caller to idle.
    pub fn step(&mut self) -> (r: Result<StepOutcome, LwskError>)
        requires
            old(self).runnable(),
        ensures
            final(self).runnable(),
            Self::same_shape(*old(self), *final(self)),
            (old(self).next_entry() matches ScheduleEntry::Wait(ns) ==> r == Ok::<
                StepOutcome,
                LwskError,
            >(StepOutcome::Waited { wait_ns: ns }) && final(self).channels == old(self).channels
                && final(self).functions == old(self).functions && final(self).io == old(self).io
                && Self::advanced_cursor(*old(self), *final(self))),
            (old(self).next_entry() matches ScheduleEntry::SwitchSchedule(k) ==> r == Ok::<
                StepOutcome,
                LwskError,
            >(StepOutcome::Switched { to_schedule_idx: k }) && final(self).channels == old(
                self,
            ).channels && final(self).functions == old(self).functions && final(self).io == old(
                self,
            ).io && Self::switched_to(*old(self), *final(self), k as int)),
            (old(self).next_entry() matches ScheduleEntry::IoIn { from_io_idx, to_channel_idx }
                ==> (r matches Ok(o) && o matches StepOutcome::Pulled {
                from_io_idx: f2,
                to_channel_idx: c2,
                ok: _,
            } && f2 == from_io_idx && c2 == to_channel_idx) && final(self).functions == old(
                self,
            ).functions && Self::advanced_cursor(*old(self), *final(self)) && forall|i: int|
                0 <= i < old(self).channels@.len() && i != to_channel_idx
                    ==> #[trigger] final(self).channels@[i] == old(self).channels@[i]),
            (old(self).next_entry() matches ScheduleEntry::IoOut { from_channel_idx, to_io_idx }
                ==> (r matches Ok(o) && o matches StepOutcome::Pushed {
                from_channel_idx: c2,
                to_io_idx: i2,
                ok: _,
            } && c2 == from_channel_idx && i2 == to_io_idx) && final(self).channels == old(
                self,
            ).channels && final(self).functions == old(self).functions
                && Self::advanced_cursor(*old(self), *final(self))),
            (old(self).next_entry() matches ScheduleEntry::FunctionInvocation(fi)
                ==> Self::function_post(*old(self), *final(self), r, fi as int)
                && Self::advanced_cursor(*old(self), *final(self))),
    {
        let cur = self.current_schedule_idx;
        // get the next schedule entry
        let entry = {
            let sched = &mut self.schedules[cur];
            sched.next_action()
        };
        proof {
            let precur = old(self).current_schedule_idx as int;
            let jj = self.schedules@[precur].current_action as int;
            assert(entry == old(self).schedules@[precur].sequence@[jj]);
            assert(entry_in_range(
                old(self).schedules@[precur].sequence@[jj],
                old(self).functions@.len(),
                old(self).channels@.len(),
                old(self).io@.len(),
                old(self).schedules@.len(),
            ));
            assert(entry == old(self).next_entry());
            assert(Self::advanced_cursor(*old(self), *self));
        }
        let r = match entry {
            ScheduleEntry::FunctionInvocation(function_idx) => {
                proof {
                    assert(old(self).fn_handles_ok(function_idx as int));
                    assert(self.fn_handles_ok(function_idx as int));
                    assert forall|i: int| 0 <= i < self.functions@.len() implies (
                    #[trigger] self.functions@[i]).wf() by {
                        assert(old(self).functions@[i].wf());
                    }
                }
                let rr = self.run_function(function_idx);
                proof {
                    assert(Self::function_post(*old(self), *self, rr, function_idx as int));
                    assert(Self::advanced_cursor(*old(self), *self));
                }
                rr
            },
            ScheduleEntry::IoIn { from_io_idx, to_channel_idx } => {
                // transport errors are reported in the outcome and swallowed:
                // the schedule does not stall on transient failures
                let ch = &mut self.channels[to_channel_idx];
                let drv = &mut self.io[from_io_idx];
                let ok = match drv.pull(&mut ch.buf) {
                    Ok(()) => true,
                    Err(_) => false,
                };
                Ok(StepOutcome::Pulled { from_io_idx, to_channel_idx, ok })
            },
            ScheduleEntry::IoOut { from_channel_idx, to_io_idx } => {
                let drv = &mut self.io[to_io_idx];
                let ok = match drv.push(&self.channels[from_channel_idx].buf) {
                    Ok(()) => true,
                    Err(_) => false,
                };
                Ok(StepOutcome::Pushed { from_channel_idx, to_io_idx, ok })
            },
            ScheduleEntry::Wait(wait_ns) => Ok(StepOutcome::Waited { wait_ns }),
            ScheduleEntry::SwitchSchedule(to_schedule_idx) => {
                // make the target schedule active and reset it to its start
                self.current_schedule_idx = to_schedule_idx;
                let sched = &mut self.schedules[to_schedule_idx];
                sched.current_action = 0;
                Ok(StepOutcome::Switched { to_schedule_idx })
            },
        };
        proof {
            assert(Self::same_shape(*old(self), *self));
            assert(self.current_schedule_idx < self.schedules@.len());
            assert forall|s: int| 0 <= s < self.schedules@.len() implies (
            #[trigger] self.schedules@[s]).current_action < self.schedules@[s].sequence@.len() by {
                assert(old(self).schedules@[s].wf());
            }
            assert(self.wf_functions());
            Self::lemma_same_shape_runnable(*old(self), *self);
        }
        r
    }
}

} // verus!

