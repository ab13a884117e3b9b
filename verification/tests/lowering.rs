use lwsk::blueprint::{Blueprint, ChannelBp, FunctionBp, IoBp, ScheduleBp};
use lwsk::kernel::{Channel, KernelConfig};
use lwsk::schedule::{Schedule, ScheduleEntry};
use lwsk::LwskError;

struct NullDriver;

impl lwsk::io::IoDriver for NullDriver {
    fn pull(&mut self, _buf: &mut Vec<u8>) -> Result<(), LwskError> {
        Ok(())
    }
    fn push(&mut self, _buf: &Vec<u8>) -> Result<(), LwskError> {
        Ok(())
    }
}

const COPY4_WAT: &str = r#"
(module
  (memory (export "memory") 1)
  (global (export "INPUT") i32 (i32.const 0))
  (global (export "OUTPUT") i32 (i32.const 16))
  (func (export "process") (result i32)
    (i32.store8 (i32.const 16) (i32.load8_u (i32.const 0)))
    (i32.store8 (i32.const 17) (i32.load8_u (i32.const 1)))
    (i32.store8 (i32.const 18) (i32.load8_u (i32.const 2)))
    (i32.store8 (i32.const 19) (i32.load8_u (i32.const 3)))
    (i32.const 0)))
"#;

fn copy_function_bp(consumes: &str, produces: &str) -> FunctionBp {
    FunctionBp {
        wasm: String::from("copy.wasm"),
        consumes: Some(String::from(consumes)),
        produces: Some(String::from(produces)),
        fuel_per_call: 100_000,
    }
}

fn two_channel_blueprint(schedules: Vec<(String, Vec<ScheduleBp>)>) -> Blueprint {
    Blueprint {
        functions: vec![(String::from("f"), copy_function_bp("a", "b"))],
        channels: vec![
            (String::from("a"), ChannelBp { size: 4 }),
            (String::from("b"), ChannelBp { size: 4 }),
        ],
        schedules,
        io: Vec::new(),
    }
}

#[test]
fn lowering_builds_channels_and_handles() {
    let bp = two_channel_blueprint(vec![(
        String::from("s"),
        vec![ScheduleBp::Function { function: String::from("f") }],
    )]);
    let bytes = vec![wat::parse_str(COPY4_WAT).unwrap()];
    let cfg: KernelConfig<NullDriver> = bp.to_kernel_config(&bytes, Vec::new(), true).unwrap();
    assert_eq!(cfg.channels.len(), 2);
    assert_eq!(cfg.channels[0].name, "a");
    assert_eq!(cfg.channels[1].name, "b");
    assert_eq!(cfg.channels[0].buf, vec![0u8; 4]);
    assert_eq!(cfg.functions.len(), 1);
    assert_eq!(cfg.functions[0].name, "f");
    assert_eq!(cfg.functions[0].consumes, Some(0));
    assert_eq!(cfg.functions[0].produces, Some(1));
    assert_eq!(cfg.functions[0].fuel_per_call, 100_000);
    assert_eq!(cfg.schedules.len(), 1);
    assert_eq!(cfg.schedules[0].name, "s");
    assert_eq!(cfg.schedules[0].current_action, 0);
    assert_eq!(
        cfg.schedules[0].sequence,
        vec![ScheduleEntry::FunctionInvocation(0)]
    );
    assert_eq!(cfg.current_schedule_idx, 0);
    assert!(cfg.validate().is_ok());
}

#[test]
fn empty_schedules_map_is_accepted_but_not_run() {
    // a blueprint with no schedules lowers and validates; the dispatcher
    // must then not be started, since there is no active schedule to run
    let bp = two_channel_blueprint(Vec::new());
    let bytes = vec![wat::parse_str(COPY4_WAT).unwrap()];
    let cfg: KernelConfig<NullDriver> = bp.to_kernel_config(&bytes, Vec::new(), true).unwrap();
    assert!(cfg.schedules.is_empty());
    assert!(cfg.validate().is_ok());
}

#[test]
fn schedule_with_no_entries_is_an_error() {
    let bp = two_channel_blueprint(vec![(String::from("s"), Vec::new())]);
    let bytes = vec![wat::parse_str(COPY4_WAT).unwrap()];
    let r = bp.to_kernel_config::<NullDriver>(&bytes, Vec::new(), true);
    assert!(matches!(r, Err(LwskError::EmptySchedule)));
}

#[test]
fn dangling_consumes_fails_lowering() {
    let mut bp = two_channel_blueprint(vec![(
        String::from("s"),
        vec![ScheduleBp::Function { function: String::from("f") }],
    )]);
    bp.functions[0].1.consumes = Some(String::from("nope"));
    let bytes = vec![wat::parse_str(COPY4_WAT).unwrap()];
    let r = bp.to_kernel_config::<NullDriver>(&bytes, Vec::new(), false);
    assert!(matches!(r, Err(LwskError::InvalidChannelIdx(_))));
}

#[test]
fn broken_module_aborts_strict_lowering() {
    let bp = two_channel_blueprint(vec![(
        String::from("s"),
        vec![ScheduleBp::Wait { wait_ns: 1 }],
    )]);
    let bytes = vec![b"this is not a bytecode module".to_vec()];
    let r = bp.to_kernel_config::<NullDriver>(&bytes, Vec::new(), true);
    assert!(matches!(r, Err(LwskError::WasmLoadError)));
}

#[test]
fn broken_module_is_skipped_without_strict() {
    let bp = two_channel_blueprint(vec![(
        String::from("s"),
        vec![ScheduleBp::Wait { wait_ns: 1 }],
    )]);
    let bytes = vec![b"this is not a bytecode module".to_vec()];
    let cfg = bp
        .to_kernel_config::<NullDriver>(&bytes, Vec::new(), false)
        .unwrap();
    assert!(cfg.functions.is_empty());
    assert!(cfg.validate().is_ok());
}

#[test]
fn schedule_naming_skipped_function_fails_lowering() {
    // in non-strict mode the broken function is skipped; a schedule entry
    // that names it can then not resolve
    let bp = two_channel_blueprint(vec![(
        String::from("s"),
        vec![ScheduleBp::Function { function: String::from("f") }],
    )]);
    let bytes = vec![b"this is not a bytecode module".to_vec()];
    let r = bp.to_kernel_config::<NullDriver>(&bytes, Vec::new(), false);
    assert!(matches!(r, Err(LwskError::InvalidFunctionIdx(_))));
}

#[test]
fn switch_entries_resolve_across_schedules() {
    // a schedule may switch forward to one that gets its index later;
    // the two-pass lowering patches the placeholder
    let bp = two_channel_blueprint(vec![
        (
            String::from("s1"),
            vec![
                ScheduleBp::Function { function: String::from("f") },
                ScheduleBp::Schedule { switch_to_schedule: String::from("s2") },
            ],
        ),
        (
            String::from("s2"),
            vec![
                ScheduleBp::Wait { wait_ns: 0 },
                ScheduleBp::Schedule { switch_to_schedule: String::from("s1") },
            ],
        ),
    ]);
    let bytes = vec![wat::parse_str(COPY4_WAT).unwrap()];
    let cfg: KernelConfig<NullDriver> = bp.to_kernel_config(&bytes, Vec::new(), true).unwrap();
    assert_eq!(cfg.schedules[0].sequence[1], ScheduleEntry::SwitchSchedule(1));
    assert_eq!(cfg.schedules[1].sequence[1], ScheduleEntry::SwitchSchedule(0));
    assert!(cfg.validate().is_ok());
}

#[test]
fn dangling_switch_target_fails_lowering() {
    let bp = two_channel_blueprint(vec![(
        String::from("s1"),
        vec![ScheduleBp::Schedule { switch_to_schedule: String::from("gone") }],
    )]);
    let bytes = vec![wat::parse_str(COPY4_WAT).unwrap()];
    let r = bp.to_kernel_config::<NullDriver>(&bytes, Vec::new(), true);
    assert!(r.is_err());
}

#[test]
fn assemble_accepts_prebuilt_drivers() {
    let bp = Blueprint {
        functions: Vec::new(),
        channels: vec![(String::from("c"), ChannelBp { size: 2 })],
        schedules: vec![(
            String::from("s"),
            vec![ScheduleBp::IoIn {
                from_io: String::from("udp0"),
                to_channel: String::from("c"),
            }],
        )],
        io: vec![(
            String::from("udp0"),
            IoBp::Udp {
                bind: String::from("127.0.0.1:0"),
                connect: String::from("127.0.0.1:1"),
            },
        )],
    };
    let cfg = bp.assemble(Vec::new(), vec![NullDriver]).unwrap();
    assert_eq!(cfg.io.len(), 1);
    assert_eq!(
        cfg.schedules[0].sequence[0],
        ScheduleEntry::IoIn { from_io_idx: 0, to_channel_idx: 0 }
    );
    assert!(cfg.validate().is_ok());
}

#[test]
fn validate_finds_dangling_handles() {
    let mk = |entries: Vec<ScheduleEntry>| KernelConfig::<NullDriver> {
        channels: vec![Channel { name: String::from("c"), buf: vec![0u8; 2] }],
        functions: Vec::new(),
        schedules: vec![Schedule::new(String::from("s"), entries).unwrap()],
        io: Vec::new(),
        current_schedule_idx: 0,
    };

    let r = mk(vec![ScheduleEntry::FunctionInvocation(0)]).validate();
    assert!(matches!(r, Err(LwskError::InvalidFunctionIdx(0))));

    let r = mk(vec![ScheduleEntry::IoIn { from_io_idx: 0, to_channel_idx: 0 }]).validate();
    assert!(matches!(r, Err(LwskError::InvalidIoIdx(0))));

    let r = mk(vec![ScheduleEntry::IoOut { from_channel_idx: 5, to_io_idx: 0 }]).validate();
    assert!(matches!(r, Err(LwskError::InvalidChannelIdx(5))));

    let r = mk(vec![ScheduleEntry::SwitchSchedule(3)]).validate();
    assert!(r.is_err());

    let r = mk(vec![ScheduleEntry::SwitchSchedule(0), ScheduleEntry::Wait(9)]).validate();
    assert!(r.is_ok());
}

#[test]
fn validate_is_idempotent_and_pure() {
    let cfg = KernelConfig::<NullDriver> {
        channels: vec![Channel { name: String::from("c"), buf: vec![0u8; 2] }],
        functions: Vec::new(),
        schedules: vec![Schedule::new(
            String::from("s"),
            vec![ScheduleEntry::Wait(1), ScheduleEntry::SwitchSchedule(0)],
        )
        .unwrap()],
        io: Vec::new(),
        current_schedule_idx: 0,
    };
    let first = cfg.validate();
    let second = cfg.validate();
    assert!(first.is_ok());
    assert!(second.is_ok());
    assert_eq!(cfg.channels[0].buf, vec![0u8, 0u8]);
    assert_eq!(cfg.schedules[0].current_action, 0);
}

#[test]
fn long_wait_is_flagged_but_not_an_error() {
    let cfg = KernelConfig::<NullDriver> {
        channels: Vec::new(),
        functions: Vec::new(),
        schedules: vec![Schedule::new(
            String::from("s"),
            vec![ScheduleEntry::Wait(10_000_000_001)],
        )
        .unwrap()],
        io: Vec::new(),
        current_schedule_idx: 0,
    };
    assert!(cfg.validate().is_ok());
    assert!(cfg.has_long_wait());

    let cfg2 = KernelConfig::<NullDriver> {
        channels: Vec::new(),
        functions: Vec::new(),
        schedules: vec![Schedule::new(
            String::from("s"),
            vec![ScheduleEntry::Wait(10_000_000_000)],
        )
        .unwrap()],
        io: Vec::new(),
        current_schedule_idx: 0,
    };
    assert!(cfg2.validate().is_ok());
    assert!(!cfg2.has_long_wait());
}
