use vstd::prelude::*;

use crate::LwskError;
use crate::kernel::{Channel, Function, KernelConfig};
use crate::schedule::{Schedule, ScheduleEntry};
use crate::wasm;

verus! {

/// Base type of a declarative configuration: four maps keyed by name, here
/// held as ordered lists of (name, entry) pairs. The provider of the
/// configuration hands them over in its map's iteration order
/// (lexicographic by name), so the first schedule is the initial one and
/// every assigned handle is the position in its list.
pub struct Blueprint {
    pub functions: Vec<(String, FunctionBp)>,
    pub channels: Vec<(String, ChannelBp)>,
    pub schedules: Vec<(String, Vec<ScheduleBp>)>,
    pub io: Vec<(String, IoBp)>,
}

/// Declarative form of a function.
pub struct FunctionBp {
    /// Path of the sandbox module file; the loader hands the module's bytes
    /// over separately, in the order of the function entries.
    pub wasm: String,

    /// Name of the channel consumed by this function, if any.
    pub consumes: Option<String>,

    /// Name of the channel produced by this function, if any.
    pub produces: Option<String>,

    /// Amount of fuel to provide per call.
    pub fuel_per_call: u64,
}

/// Declarative form of a channel.
pub struct ChannelBp {
    /// Size in bytes of the channel.
    pub size: usize,
}

/// Declarative form of one schedule entry.
pub enum ScheduleBp {
    Function { function: String },
    IoOut { from_channel: String, to_io: String },
    IoIn { from_io: String, to_channel: String },
    Wait { wait_ns: u64 },
    Schedule { switch_to_schedule: String },
}

/// Declarative form of an I/O driver.
pub enum IoBp {
    Udp { bind: String, connect: String },
}

/// What to do with a sandbox's linear memory when an invocation was
/// aborted: restore the post-load image, restore the snapshot taken before
/// the last invocation, or keep it as is (dangerous: all state must then be
/// checked before use).
pub enum OnTimeAbort {
    Reset,
    LastCheckPoint,
    Keep,
}

/// The index of the first occurrence of `name` in `names`, if any.
pub open spec fn resolve_name(names: Seq<Seq<char>>, name: Seq<char>) -> Option<int>
    decreases names.len(),
{
    if names.len() == 0 {
        None
    } else if names[0] == name {
        Some(0int)
    } else {
        match resolve_name(names.skip(1), name) {
            Some(i) => Some(i + 1),
            None => None,
        }
    }
}

/// `resolve_name` returns exactly the first match: a valid index holding
/// `name` with no earlier occurrence, or `None` when `name` does not occur.
pub proof fn lemma_resolve_name(names: Seq<Seq<char>>, name: Seq<char>)
    ensures
        match resolve_name(names, name) {
            Some(i) => 0 <= i < names.len() && names[i] == name && forall|j: int|
                0 <= j < i ==> names[j] != name,
            None => forall|j: int| 0 <= j < names.len() ==> names[j] != name,
        },
    decreases names.len(),
{
    if names.len() > 0 {
        let rest = names.skip(1);
        lemma_resolve_name(rest, name);
        assert(forall|j: int| 0 <= j < rest.len() ==> #[trigger] rest[j] == names[j + 1]);
        if names[0] != name {
            if resolve_name(rest, name) is Some {
                let i = resolve_name(rest, name)->Some_0;
                assert(names[i + 1] == rest[i]);
                assert forall|j: int| 0 <= j < i + 1 implies names[j] != name by {
                    if j > 0 {
                        assert(rest[j - 1] == names[j]);
                    }
                }
            } else {
                assert forall|j: int| 0 <= j < names.len() implies names[j] != name by {
                    if j > 0 {
                        assert(rest[j - 1] == names[j]);
                    }
                }
            }
        }
    }
}

/// Appending a name does not change how existing names resolve; a name
/// absent before resolves to the appended position exactly when it is the
/// appended name.
pub proof fn lemma_resolve_push(names: Seq<Seq<char>>, n: Seq<char>, m: Seq<char>)
    ensures
        resolve_name(names.push(n), m) == (if resolve_name(names, m) is Some {
            resolve_name(names, m)
        } else if m == n {
            Some(names.len() as int)
        } else {
            None::<int>
        }),
    decreases names.len(),
{
    if names.len() == 0 {
        assert(names.push(n).len() == 1);
        assert(names.push(n)[0] == n);
        assert(names.push(n).skip(1) =~= Seq::<Seq<char>>::empty());
        if m == n {
            assert(resolve_name(names.push(n), m) == Some(0int));
        } else {
            assert(resolve_name(names.push(n), m) == resolve_name(
                Seq::<Seq<char>>::empty(),
                m,
            ));
        }
    } else {
        assert(names.push(n)[0] == names[0]);
        assert(names.push(n).skip(1) =~= names.skip(1).push(n));
        lemma_resolve_push(names.skip(1), n, m);
        if names[0] != m {
            assert(resolve_name(names.push(n), m) == (match resolve_name(
                names.skip(1).push(n),
                m,
            ) {
                Some(i) => Some(i + 1),
                None => None,
            }));
            assert(resolve_name(names, m) == (match resolve_name(names.skip(1), m) {
                Some(i) => Some(i + 1),
                None => None,
            }));
        }
    }
}

/// The names of a list of named entries, in order.
pub open spec fn names_of<T>(entries: Seq<(String, T)>) -> Seq<Seq<char>> {
    entries.map(|i: int, e: (String, T)| e.0@)
}

/// The names of a list of functions, in order.
pub open spec fn fn_names(fns: Seq<Function>) -> Seq<Seq<char>> {
    fns.map(|i: int, f: Function| f.name@)
}

/// Find the first entry with the given name.
fn find_name<T>(entries: &Vec<(String, T)>, name: &String) -> (r: Option<usize>)
    ensures
        match r {
            Some(i) => resolve_name(names_of(entries@), name@) == Some(i as int),
            None => resolve_name(names_of(entries@), name@) is None,
        },
{
    let mut i: usize = 0;
    while i < entries.len()
        invariant
            i <= entries@.len(),
            forall|j: int| 0 <= j < i ==> names_of(entries@)[j] != name@,
        decreases entries@.len() - i,
    {
        if entries[i].0 == *name {
            proof {
                assert(names_of(entries@)[i as int] == name@);
                lemma_resolve_name(names_of(entries@), name@);
            }
            return Some(i);
        }
        proof {
            assert(names_of(entries@)[i as int] == entries@[i as int].0@);
        }
        i += 1;
    }
    proof {
        lemma_resolve_name(names_of(entries@), name@);
    }
    None
}

/// Find the first function with the given name.
fn find_function(fns: &Vec<Function>, name: &String) -> (r: Option<usize>)
    ensures
        match r {
            Some(i) => resolve_name(fn_names(fns@), name@) == Some(i as int),
            None => resolve_name(fn_names(fns@), name@) is None,
        },
{
    let mut i: usize = 0;
    while i < fns.len()
        invariant
            i <= fns@.len(),
            forall|j: int| 0 <= j < i ==> fn_names(fns@)[j] != name@,
        decreases fns@.len() - i,
    {
        if fns[i].name == *name {
            proof {
                assert(fn_names(fns@)[i as int] == name@);
                lemma_resolve_name(fn_names(fns@), name@);
            }
            return Some(i);
        }
        proof {
            assert(fn_names(fns@)[i as int] == fns@[i as int].name@);
        }
        i += 1;
    }
    proof {
        lemma_resolve_name(fn_names(fns@), name@);
    }
    None
}

/// Every name a schedule entry mentions resolves: function names against
/// the loaded functions, channel, driver and schedule names against the
/// blueprint's lists.
pub open spec fn entry_resolvable(bp: Blueprint, fns: Seq<Function>, e: ScheduleBp) -> bool {
    match e {
        ScheduleBp::Function { function } => resolve_name(fn_names(fns), function@) is Some,
        ScheduleBp::IoOut { from_channel, to_io } => resolve_name(
            names_of(bp.channels@),
            from_channel@,
        ) is Some && resolve_name(names_of(bp.io@), to_io@) is Some,
        ScheduleBp::IoIn { from_io, to_channel } => resolve_name(names_of(bp.io@), from_io@)
            is Some && resolve_name(names_of(bp.channels@), to_channel@) is Some,
        ScheduleBp::Wait { .. } => true,
        ScheduleBp::Schedule { switch_to_schedule } => resolve_name(
            names_of(bp.schedules@),
            switch_to_schedule@,
        ) is Some,
    }
}

/// The blueprint entry `e` was translated to the kernel entry `out`: each
/// name replaced by the handle it resolves to.
pub open spec fn entry_lowered(bp: Blueprint, fns: Seq<Function>, e: ScheduleBp, out: ScheduleEntry) -> bool {
    match e {
        ScheduleBp::Function { function } => resolve_name(fn_names(fns), function@)
            matches Some(k) && out == ScheduleEntry::FunctionInvocation(k as usize),
        ScheduleBp::IoOut { from_channel, to_io } => resolve_name(
            names_of(bp.channels@),
            from_channel@,
        ) matches Some(c) && resolve_name(names_of(bp.io@), to_io@) matches Some(i) && out == (
        ScheduleEntry::IoOut { from_channel_idx: c as usize, to_io_idx: i as usize }),
        ScheduleBp::IoIn { from_io, to_channel } => resolve_name(names_of(bp.io@), from_io@)
            matches Some(i) && resolve_name(names_of(bp.channels@), to_channel@) matches Some(c)
            && out == (ScheduleEntry::IoIn { from_io_idx: i as usize, to_channel_idx: c as usize }),
        ScheduleBp::Wait { wait_ns } => out == ScheduleEntry::Wait(wait_ns),
        ScheduleBp::Schedule { switch_to_schedule } => resolve_name(
            names_of(bp.schedules@),
            switch_to_schedule@,
        ) matches Some(s) && out == ScheduleEntry::SwitchSchedule(s as usize),
    }
}

/// The first translation pass: every entry is translated directly except a
/// schedule switch, which is emitted as a placeholder because the target
/// schedule may not have been assigned an index yet.
pub open spec fn entry_pass1(bp: Blueprint, fns: Seq<Function>, e: ScheduleBp, out: ScheduleEntry) -> bool {
    match e {
        ScheduleBp::Schedule { .. } => out == ScheduleEntry::SwitchSchedule(usize::MAX),
        _ => entry_lowered(bp, fns, e, out),
    }
}

/// Every entry of every blueprint schedule resolves.
pub open spec fn schedules_resolvable(bp: Blueprint, fns: Seq<Function>) -> bool {
    forall|s: int, j: int|
        0 <= s < bp.schedules@.len() && 0 <= j < bp.schedules@[s].1@.len() ==> entry_resolvable(
            bp,
            fns,
            #[trigger] bp.schedules@[s].1@[j],
        )
}

/// No blueprint schedule is declared with an empty entry list.
pub open spec fn schedules_nonempty(bp: Blueprint) -> bool {
    forall|s: int| 0 <= s < bp.schedules@.len() ==> (#[trigger] bp.schedules@[s]).1@.len() > 0
}

/// Each declared channel became a channel of the same name with a
/// zero-initialized buffer of the declared size, in declaration order.
pub open spec fn channels_lowered(bp: Blueprint, channels: Seq<Channel>) -> bool {
    &&& channels.len() == bp.channels@.len()
    &&& forall|i: int|
        0 <= i < channels.len() ==> (#[trigger] channels[i]).name@ == bp.channels@[i].0@
            && channels[i].buf@ == Seq::new(bp.channels@[i].1.size as nat, |q: int| 0u8)
}

/// Each blueprint schedule became a schedule of the same name, with its
/// cursor at the start and every entry translated to resolved handles.
pub open spec fn schedules_lowered(bp: Blueprint, fns: Seq<Function>, scheds: Seq<Schedule>) -> bool {
    &&& scheds.len() == bp.schedules@.len()
    &&& forall|s: int|
        0 <= s < scheds.len() ==> (#[trigger] scheds[s]).name@ == bp.schedules@[s].0@
            && scheds[s].current_action == 0 && scheds[s].sequence@.len()
            == bp.schedules@[s].1@.len()
    &&& forall|s: int, j: int|
        0 <= s < scheds.len() && 0 <= j < scheds[s].sequence@.len() ==> entry_lowered(
            bp,
            fns,
            bp.schedules@[s].1@[j],
            #[trigger] scheds[s].sequence@[j],
        )
}

/// The function `f` is the lowered form of blueprint entry `bpi`: same
/// name, its channel names resolved to handles, and its fuel budget taken
/// over.
pub open spec fn function_lowered(bp: Blueprint, f: Function, bpi: int) -> bool {
    &&& f.wf()
    &&& f.name@ == bp.functions@[bpi].0@
    &&& f.fuel_per_call == bp.functions@[bpi].1.fuel_per_call
    &&& match bp.functions@[bpi].1.consumes {
        Some(cn) => resolve_name(names_of(bp.channels@), cn@) matches Some(ci) && f.consumes
            == Some(ci as usize),
        None => f.consumes is None,
    }
    &&& match bp.functions@[bpi].1.produces {
        Some(pn) => resolve_name(names_of(bp.channels@), pn@) matches Some(pi) && f.produces
            == Some(pi as usize),
        None => f.produces is None,
    }
}

/// Every loaded function is the lowered form of the blueprint entry its
/// name resolves to (names are unique within a section, as in any map),
/// and the loaded functions keep the blueprint's order: their resolved
/// blueprint positions are strictly increasing, so handles are assigned in
/// insertion order with no entry kept twice.
pub open spec fn functions_lowered(bp: Blueprint, fns: Seq<Function>) -> bool {
    &&& forall|k: int|
        0 <= k < fns.len() ==> (resolve_name(names_of(bp.functions@), (#[trigger] fns[k]).name@)
            matches Some(bpi) && function_lowered(bp, fns[k], bpi))
    &&& forall|k1: int, k2: int|
        0 <= k1 < k2 < fns.len() ==> resolve_name(
            names_of(bp.functions@),
            (#[trigger] fns[k1]).name@,
        )->Some_0 < resolve_name(names_of(bp.functions@), (#[trigger] fns[k2]).name@)->Some_0
}

/// The `consumes`/`produces` names of blueprint function `i` name declared
/// channels.
pub open spec fn fn_channels_resolvable(bp: Blueprint, i: int) -> bool {
    &&& (bp.functions@[i].1.consumes matches Some(cn) ==> resolve_name(
        names_of(bp.channels@),
        cn@,
    ) is Some)
    &&& (bp.functions@[i].1.produces matches Some(pn) ==> resolve_name(
        names_of(bp.channels@),
        pn@,
    ) is Some)
}

/// Every name a schedule entry mentions resolves, where a function name
/// must name a declared function whose module bytes load.
pub open spec fn entry_resolvable_loaded(
    bp: Blueprint,
    wasm_bytes: Seq<Vec<u8>>,
    e: ScheduleBp,
) -> bool {
    match e {
        ScheduleBp::Function { function } => resolve_name(names_of(bp.functions@), function@)
            matches Some(i) && wasm::load_ok(wasm_bytes[i]@),
        ScheduleBp::IoOut { from_channel, to_io } => resolve_name(
            names_of(bp.channels@),
            from_channel@,
        ) is Some && resolve_name(names_of(bp.io@), to_io@) is Some,
        ScheduleBp::IoIn { from_io, to_channel } => resolve_name(names_of(bp.io@), from_io@)
            is Some && resolve_name(names_of(bp.channels@), to_channel@) is Some,
        ScheduleBp::Wait { .. } => true,
        ScheduleBp::Schedule { switch_to_schedule } => resolve_name(
            names_of(bp.schedules@),
            switch_to_schedule@,
        ) is Some,
    }
}

/// Everything the lowering must resolve, apart from schedules being
/// non-empty: in strict mode every declared module loads; the channel
/// names of every function that is kept resolve; and every schedule entry
/// resolves against the kept functions.
pub open spec fn lowering_inputs_resolve(
    bp: Blueprint,
    wasm_bytes: Seq<Vec<u8>>,
    strict: bool,
) -> bool {
    &&& (strict ==> forall|i: int|
        0 <= i < bp.functions@.len() ==> wasm::load_ok((#[trigger] wasm_bytes[i])@))
    &&& (forall|i: int|
        0 <= i < bp.functions@.len() && wasm::load_ok((#[trigger] wasm_bytes[i])@)
            ==> fn_channels_resolvable(bp, i))
    &&& (forall|s: int, j: int|
        0 <= s < bp.schedules@.len() && 0 <= j < bp.schedules@[s].1@.len()
            ==> entry_resolvable_loaded(bp, wasm_bytes, #[trigger] bp.schedules@[s].1@[j]))
}

/// The whole lowering succeeds on these inputs: everything resolves and no
/// schedule is empty.
pub open spec fn lowering_ok(bp: Blueprint, wasm_bytes: Seq<Vec<u8>>, strict: bool) -> bool {
    lowering_inputs_resolve(bp, wasm_bytes, strict) && schedules_nonempty(bp)
}

/// All names of `names` are distinct.
pub open spec fn names_unique(names: Seq<Seq<char>>) -> bool {
    forall|a: int, b: int| 0 <= a < b < names.len() ==> names[a] != names[b]
}

/// Under unique names, a name resolves to its own position.
pub proof fn lemma_resolve_unique(names: Seq<Seq<char>>, i: int)
    requires
        0 <= i < names.len(),
        names_unique(names),
    ensures
        resolve_name(names, names[i]) == Some(i),
{
    lemma_resolve_name(names, names[i]);
    if resolve_name(names, names[i]) is Some {
        let j = resolve_name(names, names[i])->Some_0;
        if j < i {
            assert(names[j] == names[i]);
            assert(false);
        }
        if j > i {
            assert(names[i] != names[i]);
            assert(false);
        }
    } else {
        assert(names[i] == names[i]);
        assert(false);
    }
}

impl Blueprint {
    /// The four sections are maps keyed by name: within each, names are
    /// unique.
    pub open spec fn wf(self) -> bool {
        &&& names_unique(names_of(self.functions@))
        &&& names_unique(names_of(self.channels@))
        &&& names_unique(names_of(self.schedules@))
        &&& names_unique(names_of(self.io@))
    }

    /// Derive an executable kernel configuration from this blueprint.
    ///
    /// `wasm_bytes` holds each declared function's module bytes, in the
    /// order of the function entries; `io_drivers` holds one created driver
    /// per declared I/O entry, in order. Each function is loaded and its
    /// channel names are resolved to handles; a function whose module fails
    /// to load is skipped, unless `strict` is set, in which case the whole
    /// lowering fails. A `consumes`/`produces` name that names no channel
    /// fails the lowering. The rest is assembled by [`Blueprint::assemble`].
    pub fn to_kernel_config<D>(
        &self,
        wasm_bytes: &Vec<Vec<u8>>,
        io_drivers: Vec<D>,
        strict: bool,
    ) -> (r: Result<KernelConfig<D>, LwskError>)
        requires
            self.wf(),
            wasm_bytes@.len() == self.functions@.len(),
            io_drivers@.len() == self.io@.len(),
        ensures
            r is Ok <==> lowering_ok(*self, wasm_bytes@, strict),
            r matches Ok(cfg) ==> {
                &&& channels_lowered(*self, cfg.channels@)
                &&& cfg.functions@.len() <= self.functions@.len()
                &&& (strict ==> cfg.functions@.len() == self.functions@.len())
                &&& functions_lowered(*self, cfg.functions@)
                &&& forall|i: int|
                    0 <= i < self.functions@.len() ==> (wasm::load_ok(
                        (#[trigger] wasm_bytes@[i])@,
                    ) <==> resolve_name(fn_names(cfg.functions@), self.functions@[i].0@) is Some)
                &&& cfg.wf_functions()
                &&& cfg.io == io_drivers
                &&& schedules_lowered(*self, cfg.functions@, cfg.schedules@)
                &&& schedules_nonempty(*self)
                &&& cfg.current_schedule_idx == 0
            },
            lowering_inputs_resolve(*self, wasm_bytes@, strict) && !schedules_nonempty(*self)
                ==> (r matches Err(e) && e is EmptySchedule),
            r matches Err(e) ==> e is WasmLoadError || e is EmptySchedule
                || e is InvalidFunctionIdx || e is InvalidChannelIdx || e is InvalidIoIdx,
    {
        let mut functions: Vec<Function> = Vec::new();
        let mut i: usize = 0;
        while i < self.functions.len()
            invariant
                self.wf(),
                wasm_bytes@.len() == self.functions@.len(),
                i <= self.functions@.len(),
                functions@.len() <= i,
                strict ==> functions@.len() == i,
                strict ==> forall|i2: int|
                    0 <= i2 < i ==> wasm::load_ok((#[trigger] wasm_bytes@[i2])@),
                forall|i2: int|
                    0 <= i2 < i && wasm::load_ok((#[trigger] wasm_bytes@[i2])@)
                        ==> fn_channels_resolvable(*self, i2),
                forall|i2: int|
                    0 <= i2 < i ==> (wasm::load_ok((#[trigger] wasm_bytes@[i2])@)
                        <==> resolve_name(fn_names(functions@), self.functions@[i2].0@) is Some),
                forall|k: int|
                    0 <= k < functions@.len() ==> (resolve_name(
                        names_of(self.functions@),
                        (#[trigger] functions@[k]).name@,
                    ) matches Some(bpi) && function_lowered(*self, functions@[k], bpi) && bpi < i),
                forall|k1: int, k2: int|
                    0 <= k1 < k2 < functions@.len() ==> resolve_name(
                        names_of(self.functions@),
                        (#[trigger] functions@[k1]).name@,
                    )->Some_0 < resolve_name(
                        names_of(self.functions@),
                        (#[trigger] functions@[k2]).name@,
                    )->Some_0,
            decreases self.functions@.len() - i,
        {
            let loaded = Function::load(self.functions[i].0.as_str(), wasm_bytes[i].as_slice());
            proof {
                assert(names_of(self.functions@)[i as int] == self.functions@[i as int].0@);
            }
            match loaded {
                Ok(mut f) => {
                    match &self.functions[i].1.consumes {
                        Some(cn) => match find_name(&self.channels, cn) {
                            Some(ci) => {
                                f.consumes = Some(ci);
                            },
                            None => {
                                proof {
                                    assert(wasm::load_ok(wasm_bytes@[i as int]@));
                                    assert(!fn_channels_resolvable(*self, i as int));
                                    assert(!lowering_inputs_resolve(*self, wasm_bytes@, strict));
                                }
                                return Err(LwskError::InvalidChannelIdx(i));
                            },
                        },
                        None => {},
                    }
                    match &self.functions[i].1.produces {
                        Some(pn) => match find_name(&self.channels, pn) {
                            Some(pi) => {
                                f.produces = Some(pi);
                            },
                            None => {
                                proof {
                                    assert(wasm::load_ok(wasm_bytes@[i as int]@));
                                    assert(!fn_channels_resolvable(*self, i as int));
                                    assert(!lowering_inputs_resolve(*self, wasm_bytes@, strict));
                                }
                                return Err(LwskError::InvalidChannelIdx(i));
                            },
                        },
                        None => {},
                    }
                    f.fuel_per_call = self.functions[i].1.fuel_per_call;
                    proof {
                        assert(function_lowered(*self, f, i as int));
                        assert(names_of(self.functions@)[i as int] == f.name@);
                        lemma_resolve_unique(names_of(self.functions@), i as int);
                    }
                    let ghost fsnap = f;
                    let ghost pre = functions@;
                    functions.push(f);
                    proof {
                        assert(fn_names(functions@) =~= fn_names(pre).push(fsnap.name@));
                        // names already loaded stand for earlier blueprint
                        // entries, so the new name is none of them
                        assert forall|k: int| 0 <= k < pre.len() implies fn_names(pre)[k]
                            != fsnap.name@ by {
                            assert(fn_names(pre)[k] == pre[k].name@);
                            let bpi = resolve_name(names_of(self.functions@), pre[k].name@);
                            lemma_resolve_name(names_of(self.functions@), pre[k].name@);
                            assert(names_of(self.functions@)[bpi->Some_0] == pre[k].name@);
                        }
                        lemma_resolve_name(fn_names(pre), fsnap.name@);
                        assert(resolve_name(fn_names(pre), fsnap.name@) is None);
                        assert forall|k: int| 0 <= k < functions@.len() implies (resolve_name(
                            names_of(self.functions@),
                            (#[trigger] functions@[k]).name@,
                        ) matches Some(bpi) && function_lowered(*self, functions@[k], bpi) && bpi
                            < i + 1) by {
                            if k < pre.len() {
                                assert(functions@[k] == pre[k]);
                            } else {
                                assert(functions@[k] == fsnap);
                                assert(resolve_name(names_of(self.functions@), fsnap.name@)
                                    == Some(i as int));
                            }
                        }
                        assert forall|k1: int, k2: int|
                            0 <= k1 < k2 < functions@.len() implies resolve_name(
                            names_of(self.functions@),
                            (#[trigger] functions@[k1]).name@,
                        )->Some_0 < resolve_name(
                            names_of(self.functions@),
                            (#[trigger] functions@[k2]).name@,
                        )->Some_0 by {
                            assert(functions@[k1] == pre[k1]);
                            if k2 < pre.len() {
                                assert(functions@[k2] == pre[k2]);
                            } else {
                                assert(functions@[k2] == fsnap);
                            }
                        }
                        // existing names resolve as before; the blueprint
                        // entry just loaded now resolves to the new position
                        assert forall|i2: int| 0 <= i2 < i + 1 implies (wasm::load_ok(
                            (#[trigger] wasm_bytes@[i2])@,
                        ) <==> resolve_name(fn_names(functions@), self.functions@[i2].0@)
                            is Some) by {
                            lemma_resolve_push(
                                fn_names(pre),
                                fsnap.name@,
                                self.functions@[i2].0@,
                            );
                            if i2 < i {
                                assert(names_of(self.functions@)[i2] == self.functions@[i2].0@);
                                assert(names_of(self.functions@)[i2] != names_of(
                                    self.functions@,
                                )[i as int]);
                            } else {
                                assert(self.functions@[i2].0@ == fsnap.name@);
                                assert(wasm::load_ok(wasm_bytes@[i2]@));
                            }
                        }
                    }
                },
                Err(_) => {
                    // the module did not load: skip this function with a
                    // warning, or fail the whole lowering in strict mode
                    if strict {
                        proof {
                            assert(!wasm::load_ok(wasm_bytes@[i as int]@));
                            assert(!lowering_inputs_resolve(*self, wasm_bytes@, strict));
                        }
                        return Err(LwskError::WasmLoadError);
                    }
                    proof {
                        // the skipped blueprint entry resolves to no loaded
                        // function: every loaded name is an earlier entry's
                        assert forall|k: int| 0 <= k < functions@.len() implies fn_names(
                            functions@,
                        )[k] != self.functions@[i as int].0@ by {
                            assert(fn_names(functions@)[k] == functions@[k].name@);
                            let bpi = resolve_name(
                                names_of(self.functions@),
                                functions@[k].name@,
                            );
                            lemma_resolve_name(names_of(self.functions@), functions@[k].name@);
                            assert(names_of(self.functions@)[bpi->Some_0]
                                == functions@[k].name@);
                            assert(names_of(self.functions@)[i as int]
                                == self.functions@[i as int].0@);
                        }
                        lemma_resolve_name(fn_names(functions@), self.functions@[i as int].0@);
                        assert(resolve_name(fn_names(functions@), self.functions@[i as int].0@)
                            is None);
                        assert(!wasm::load_ok(wasm_bytes@[i as int]@));
                    }
                },
            }
            i += 1;
        }

        let ghost loaded_fns = functions@;
        proof {
            // schedule entries resolve against the loaded functions exactly
            // when they resolve against the declared functions whose
            // modules load
            assert forall|s: int, j: int|
                0 <= s < self.schedules@.len() && 0 <= j < self.schedules@[s].1@.len() implies (
            entry_resolvable(*self, loaded_fns, #[trigger] self.schedules@[s].1@[j])
                <==> entry_resolvable_loaded(
                *self,
                wasm_bytes@,
                self.schedules@[s].1@[j],
            )) by {
                match self.schedules@[s].1@[j] {
                    ScheduleBp::Function { function } => {
                        lemma_resolve_name(names_of(self.functions@), function@);
                        match resolve_name(names_of(self.functions@), function@) {
                            Some(i0) => {
                                assert(names_of(self.functions@)[i0]
                                    == self.functions@[i0].0@);
                                assert(self.functions@[i0].0@ == function@);
                            },
                            None => {
                                // no declared function has this name, so no
                                // loaded one does either
                                assert forall|k: int|
                                    0 <= k < loaded_fns.len() implies fn_names(loaded_fns)[k]
                                        != function@ by {
                                    assert(fn_names(loaded_fns)[k] == loaded_fns[k].name@);
                                    lemma_resolve_name(
                                        names_of(self.functions@),
                                        loaded_fns[k].name@,
                                    );
                                    let bpi = resolve_name(
                                        names_of(self.functions@),
                                        loaded_fns[k].name@,
                                    );
                                    assert(names_of(self.functions@)[bpi->Some_0]
                                        == loaded_fns[k].name@);
                                }
                                lemma_resolve_name(fn_names(loaded_fns), function@);
                            },
                        }
                    },
                    _ => {},
                }
            }
        }
        let r = self.assemble(functions, io_drivers);
        proof {
            if r is Ok {
                let cfg = r->Ok_0;
                assert(cfg.functions@ == loaded_fns);
                assert forall|i2: int| 0 <= i2 < self.functions@.len() implies (wasm::load_ok(
                    (#[trigger] wasm_bytes@[i2])@,
                ) <==> resolve_name(fn_names(cfg.functions@), self.functions@[i2].0@)
                    is Some) by {
                    assert(fn_names(cfg.functions@) == fn_names(loaded_fns));
                }
                assert forall|k: int| 0 <= k < cfg.functions@.len() implies (resolve_name(
                    names_of(self.functions@),
                    (#[trigger] cfg.functions@[k]).name@,
                ) matches Some(bpi) && function_lowered(*self, cfg.functions@[k], bpi)) by {
                    assert(cfg.functions@[k] == loaded_fns[k]);
                }
                assert forall|k1: int, k2: int|
                    0 <= k1 < k2 < cfg.functions@.len() implies resolve_name(
                    names_of(self.functions@),
                    (#[trigger] cfg.functions@[k1]).name@,
                )->Some_0 < resolve_name(
                    names_of(self.functions@),
                    (#[trigger] cfg.functions@[k2]).name@,
                )->Some_0 by {
                    assert(cfg.functions@[k1] == loaded_fns[k1]);
                    assert(cfg.functions@[k2] == loaded_fns[k2]);
                }
                assert(functions_lowered(*self, cfg.functions@));
                assert forall|k: int| 0 <= k < cfg.functions@.len() implies (
                #[trigger] cfg.functions@[k]).wf() by {
                    assert(resolve_name(
                        names_of(self.functions@),
                        cfg.functions@[k].name@,
                    ) matches Some(bpi) && function_lowered(*self, cfg.functions@[k], bpi));
                }
            }
        }
        r
    }

    /// Assemble a kernel configuration from already-loaded functions and
    /// already-created drivers: allocate the channels, translate every
    /// schedule in two passes (schedule switches are first emitted as
    /// placeholders, then patched once every schedule has its index), and
    /// make the first schedule the initial one.
    ///
    /// Succeeds exactly when no schedule is empty and every name mentioned
    /// by a schedule entry resolves.
    pub fn assemble<D>(&self, functions: Vec<Function>, io_drivers: Vec<D>) -> (r: Result<
        KernelConfig<D>,
        LwskError,
    >)
        requires
            io_drivers@.len() == self.io@.len(),
        ensures
            r is Ok <==> schedules_nonempty(*self) && schedules_resolvable(*self, functions@),
            schedules_resolvable(*self, functions@) && !schedules_nonempty(*self) ==> (r matches
                Err(e) && e is EmptySchedule),
            r matches Ok(cfg) ==> channels_lowered(*self, cfg.channels@) && cfg.functions
                == functions && cfg.io == io_drivers && schedules_lowered(
                *self,
                functions@,
                cfg.schedules@,
            ) && cfg.current_schedule_idx == 0,
            r matches Err(e) ==> e is EmptySchedule || e is InvalidFunctionIdx
                || e is InvalidChannelIdx || e is InvalidIoIdx || e is WasmLoadError,
    {
        // channels: assign indices in declaration order, zero-filled buffers
        let mut channels: Vec<Channel> = Vec::new();
        let mut i: usize = 0;
        while i < self.channels.len()
            invariant
                i <= self.channels@.len(),
                channels@.len() == i,
                forall|k: int|
                    0 <= k < i ==> (#[trigger] channels@[k]).name@ == self.channels@[k].0@
                        && channels@[k].buf@ == Seq::new(
                        self.channels@[k].1.size as nat,
                        |q: int| 0u8,
                    ),
            decreases self.channels@.len() - i,
        {
            let name = self.channels[i].0.clone();
            let size = self.channels[i].1.size;
            let buf: Vec<u8> = vec![0u8; size];
            proof {
                assert(buf@ =~= Seq::new(size as nat, |q: int| 0u8));
            }
            channels.push(Channel { name, buf });
            i += 1;
        }

        // schedules, pass 1: translate every entry; a schedule switch
        // becomes a placeholder, since its target may not have an index yet
        let mut schedules: Vec<Schedule> = Vec::new();
        let mut s: usize = 0;
        while s < self.schedules.len()
            invariant
                s <= self.schedules@.len(),
                schedules@.len() == s,
                forall|s2: int|
                    0 <= s2 < s ==> (#[trigger] schedules@[s2]).name@ == self.schedules@[s2].0@
                        && schedules@[s2].current_action == 0 && schedules@[s2].sequence@.len()
                        == self.schedules@[s2].1@.len(),
                forall|s2: int, j: int|
                    0 <= s2 < s && 0 <= j < self.schedules@[s2].1@.len() ==> entry_pass1(
                        *self,
                        functions@,
                        self.schedules@[s2].1@[j],
                        #[trigger] schedules@[s2].sequence@[j],
                    ),
                forall|s2: int| 0 <= s2 < s ==> (#[trigger] self.schedules@[s2]).1@.len() > 0,
            decreases self.schedules@.len() - s,
        {
            let mut entries: Vec<ScheduleEntry> = Vec::new();
            let mut j: usize = 0;
            while j < self.schedules[s].1.len()
                invariant
                    s < self.schedules@.len(),
                    j <= self.schedules@[s as int].1@.len(),
                    entries@.len() == j,
                    forall|j2: int|
                        0 <= j2 < j ==> entry_pass1(
                            *self,
                            functions@,
                            self.schedules@[s as int].1@[j2],
                            #[trigger] entries@[j2],
                        ),
                decreases self.schedules@[s as int].1@.len() - j,
            {
                match &self.schedules[s].1[j] {
                    ScheduleBp::Function { function } => {
                        match find_function(&functions, function) {
                            Some(idx) => {
                                entries.push(ScheduleEntry::FunctionInvocation(idx));
                            },
                            None => {
                                proof {
                                    assert(!entry_resolvable(
                                        *self,
                                        functions@,
                                        self.schedules@[s as int].1@[j as int],
                                    ));
                                }
                                return Err(LwskError::InvalidFunctionIdx(j));
                            },
                        }
                    },
                    ScheduleBp::IoOut { from_channel, to_io } => {
                        let from_idx = match find_name(&self.channels, from_channel) {
                            Some(idx) => idx,
                            None => {
                                proof {
                                    assert(!entry_resolvable(
                                        *self,
                                        functions@,
                                        self.schedules@[s as int].1@[j as int],
                                    ));
                                }
                                return Err(LwskError::InvalidChannelIdx(j));
                            },
                        };
                        let to_idx = match find_name(&self.io, to_io) {
                            Some(idx) => idx,
                            None => {
                                proof {
                                    assert(!entry_resolvable(
                                        *self,
                                        functions@,
                                        self.schedules@[s as int].1@[j as int],
                                    ));
                                }
                                return Err(LwskError::InvalidIoIdx(j));
                            },
                        };
                        entries.push(
                            ScheduleEntry::IoOut { from_channel_idx: from_idx, to_io_idx: to_idx },
                        );
                    },
                    ScheduleBp::IoIn { from_io, to_channel } => {
                        let from_idx = match find_name(&self.io, from_io) {
                            Some(idx) => idx,
                            None => {
                                proof {
                                    assert(!entry_resolvable(
                                        *self,
                                        functions@,
                                        self.schedules@[s as int].1@[j as int],
                                    ));
                                }
                                return Err(LwskError::InvalidIoIdx(j));
                            },
                        };
                        let to_idx = match find_name(&self.channels, to_channel) {
                            Some(idx) => idx,
                            None => {
                                proof {
                                    assert(!entry_resolvable(
                                        *self,
                                        functions@,
                                        self.schedules@[s as int].1@[j as int],
                                    ));
                                }
                                return Err(LwskError::InvalidChannelIdx(j));
                            },
                        };
                        entries.push(
                            ScheduleEntry::IoIn { from_io_idx: from_idx, to_channel_idx: to_idx },
                        );
                    },
                    ScheduleBp::Wait { wait_ns } => {
                        entries.push(ScheduleEntry::Wait(*wait_ns));
                    },
                    ScheduleBp::Schedule { .. } => {
                        entries.push(ScheduleEntry::SwitchSchedule(usize::MAX));
                    },
                }
                j += 1;
            }
            let name = self.schedules[s].0.clone();
            match Schedule::new(name, entries) {
                Ok(sched) => {
                    schedules.push(sched);
                },
                Err(_) => {
                    proof {
                        assert(self.schedules@[s as int].1@.len() == 0);
                        assert(!schedules_nonempty(*self));
                    }
                    return Err(LwskError::EmptySchedule);
                },
            }
            s += 1;
        }

        // schedules, pass 2: replace each placeholder with the index its
        // target schedule was assigned in pass 1; by the pass-1 invariant a
        // placeholder stands exactly where the blueprint has a switch entry
        let mut out_schedules: Vec<Schedule> = Vec::new();
        let mut s: usize = 0;
        while s < self.schedules.len()
            invariant
                s <= self.schedules@.len(),
                self.schedules@.len() == schedules@.len(),
                out_schedules@.len() == s,
                forall|s2: int|
                    0 <= s2 < schedules@.len() ==> (#[trigger] schedules@[s2]).name@
                        == self.schedules@[s2].0@ && schedules@[s2].current_action == 0
                        && schedules@[s2].sequence@.len() == self.schedules@[s2].1@.len(),
                forall|s2: int, j: int|
                    0 <= s2 < schedules@.len() && 0 <= j < self.schedules@[s2].1@.len()
                        ==> entry_pass1(
                        *self,
                        functions@,
                        self.schedules@[s2].1@[j],
                        #[trigger] schedules@[s2].sequence@[j],
                    ),
                forall|s2: int|
                    0 <= s2 < schedules@.len() ==> (#[trigger] self.schedules@[s2]).1@.len() > 0,
                forall|s2: int|
                    0 <= s2 < s ==> (#[trigger] out_schedules@[s2]).name@
                        == self.schedules@[s2].0@ && out_schedules@[s2].current_action == 0
                        && out_schedules@[s2].sequence@.len() == self.schedules@[s2].1@.len(),
                forall|s2: int, j: int|
                    0 <= s2 < s && 0 <= j < self.schedules@[s2].1@.len() ==> entry_lowered(
                        *self,
                        functions@,
                        self.schedules@[s2].1@[j],
                        #[trigger] out_schedules@[s2].sequence@[j],
                    ),
            decreases self.schedules@.len() - s,
        {
            let mut entries2: Vec<ScheduleEntry> = Vec::new();
            let mut j: usize = 0;
            while j < self.schedules[s].1.len()
                invariant
                    s < self.schedules@.len(),
                    self.schedules@.len() == schedules@.len(),
                    j <= self.schedules@[s as int].1@.len(),
                    forall|s2: int|
                        0 <= s2 < schedules@.len() ==> (#[trigger] schedules@[s2]).sequence@.len()
                            == self.schedules@[s2].1@.len(),
                    entries2@.len() == j,
                    forall|s2: int, j2: int|
                        0 <= s2 < schedules@.len() && 0 <= j2 < self.schedules@[s2].1@.len()
                            ==> entry_pass1(
                            *self,
                            functions@,
                            self.schedules@[s2].1@[j2],
                            #[trigger] schedules@[s2].sequence@[j2],
                        ),
                    forall|j2: int|
                        0 <= j2 < j ==> entry_lowered(
                            *self,
                            functions@,
                            self.schedules@[s as int].1@[j2],
                            #[trigger] entries2@[j2],
                        ),
                decreases self.schedules@[s as int].1@.len() - j,
            {
                match &self.schedules[s].1[j] {
                    ScheduleBp::Schedule { switch_to_schedule } => {
                        match find_name(&self.schedules, switch_to_schedule) {
                            Some(k) => {
                                entries2.push(ScheduleEntry::SwitchSchedule(k));
                            },
                            None => {
                                proof {
                                    assert(!entry_resolvable(
                                        *self,
                                        functions@,
                                        self.schedules@[s as int].1@[j as int],
                                    ));
                                }
                                return Err(LwskError::WasmLoadError);
                            },
                        }
                    },
                    _ => {
                        entries2.push(schedules[s].sequence[j]);
                    },
                }
                j += 1;
            }
            let name = self.schedules[s].0.clone();
            out_schedules.push(Schedule { name, sequence: entries2, current_action: 0 });
            s += 1;
        }

        proof {
            assert(schedules_nonempty(*self));
            assert forall|s2: int, j: int|
                0 <= s2 < self.schedules@.len() && 0 <= j < self.schedules@[s2].1@.len() implies
                entry_resolvable(*self, functions@, #[trigger] self.schedules@[s2].1@[j]) by {
                assert(entry_lowered(
                    *self,
                    functions@,
                    self.schedules@[s2].1@[j],
                    out_schedules@[s2].sequence@[j],
                ));
            }
        }

        Ok(
            KernelConfig {
                channels,
                functions,
                schedules: out_schedules,
                io: io_drivers,
                current_schedule_idx: 0,
            },
        )
    }
}

} // verus!
