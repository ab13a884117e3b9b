use lwsk::blueprint::{Blueprint, ChannelBp, FunctionBp, IoBp, ScheduleBp};
use lwsk::kernel::{Channel, Function, KernelConfig, StepOutcome};
use lwsk::schedule::{Schedule, ScheduleEntry};
use lwsk::LwskError;

/// An in-memory driver: one pending datagram to pull, a log of pushes.
struct MockDriver {
    incoming: Option<Vec<u8>>,
    sent: Vec<Vec<u8>>,
    failing: bool,
}

impl MockDriver {
    fn empty() -> MockDriver {
        MockDriver { incoming: None, sent: Vec::new(), failing: false }
    }
    fn with(data: Vec<u8>) -> MockDriver {
        MockDriver { incoming: Some(data), sent: Vec::new(), failing: false }
    }
    fn broken() -> MockDriver {
        MockDriver { incoming: None, sent: Vec::new(), failing: true }
    }
}

impl lwsk::io::IoDriver for MockDriver {
    fn pull(&mut self, buf: &mut Vec<u8>) -> Result<(), LwskError> {
        if self.failing {
            return Err(LwskError::DriverError(111));
        }
        if let Some(data) = self.incoming.take() {
            let n = if data.len() < buf.len() { data.len() } else { buf.len() };
            for i in 0..n {
                buf[i] = data[i];
            }
        }
        Ok(())
    }
    fn push(&mut self, buf: &Vec<u8>) -> Result<(), LwskError> {
        if self.failing {
            return Err(LwskError::DriverError(111));
        }
        self.sent.push(buf.clone());
        Ok(())
    }
}

const COPY4_WAT: &str = r#"
(module
  (memory (export "memory") 1)
  (global (export "INPUT") i32 (i32.const 0))
  (global (export "OUTPUT") i32 (i32.const 16))
  (global (export "WIDE") i64 (i64.const 7))
  (func (export "process") (result i32)
    (i32.store8 (i32.const 16) (i32.load8_u (i32.const 0)))
    (i32.store8 (i32.const 17) (i32.load8_u (i32.const 1)))
    (i32.store8 (i32.const 18) (i32.load8_u (i32.const 2)))
    (i32.store8 (i32.const 19) (i32.load8_u (i32.const 3)))
    (i32.const 0)))
"#;

const ADD4_WAT: &str = r#"
(module
  (memory (export "memory") 1)
  (global (export "INPUT") i32 (i32.const 0))
  (global (export "OUTPUT") i32 (i32.const 16))
  (func (export "process") (result i32)
    (i32.store8 (i32.const 16) (i32.add (i32.load8_u (i32.const 0)) (i32.const 1)))
    (i32.store8 (i32.const 17) (i32.add (i32.load8_u (i32.const 1)) (i32.const 2)))
    (i32.store8 (i32.const 18) (i32.add (i32.load8_u (i32.const 2)) (i32.const 3)))
    (i32.store8 (i32.const 19) (i32.add (i32.load8_u (i32.const 3)) (i32.const 4)))
    (i32.const 0)))
"#;

const SPIN_WAT: &str = r#"
(module
  (memory (export "memory") 1)
  (func (export "process") (result i32)
    (local $i i32)
    (loop $l
      (local.set $i (i32.add (local.get $i) (i32.const 1)))
      (br_if $l (i32.lt_u (local.get $i) (i32.const 1000000))))
    (i32.const 0)))
"#;

const NO_INPUT_WAT: &str = r#"
(module
  (memory (export "memory") 1)
  (global (export "OUTPUT") i32 (i32.const 16))
  (func (export "process") (result i32)
    (i32.const 0)))
"#;

fn one_function_blueprint(fuel: u64) -> Blueprint {
    Blueprint {
        functions: vec![(
            String::from("f"),
            FunctionBp {
                wasm: String::from("f.wasm"),
                consumes: Some(String::from("a")),
                produces: Some(String::from("b")),
                fuel_per_call: fuel,
            },
        )],
        channels: vec![
            (String::from("a"), ChannelBp { size: 4 }),
            (String::from("b"), ChannelBp { size: 4 }),
        ],
        schedules: vec![(
            String::from("s"),
            vec![ScheduleBp::Function { function: String::from("f") }],
        )],
        io: Vec::new(),
    }
}

#[test]
fn copy_through_moves_bytes_between_channels() {
    let bp = one_function_blueprint(100_000);
    let bytes = vec![wat::parse_str(COPY4_WAT).unwrap()];
    let mut cfg: KernelConfig<MockDriver> =
        bp.to_kernel_config(&bytes, Vec::new(), true).unwrap();
    cfg.validate().unwrap();

    cfg.channels[0].buf = vec![1, 2, 3, 4];
    let outcome = cfg.step().unwrap();
    assert!(matches!(outcome, StepOutcome::Invoked { function_idx: 0, .. }));
    assert_eq!(cfg.channels[1].buf, vec![1, 2, 3, 4]);
    assert_eq!(cfg.channels[0].buf, vec![1, 2, 3, 4]);
}

#[test]
fn fuel_consumed_is_within_budget() {
    let bp = one_function_blueprint(100_000);
    let bytes = vec![wat::parse_str(COPY4_WAT).unwrap()];
    let mut cfg: KernelConfig<MockDriver> =
        bp.to_kernel_config(&bytes, Vec::new(), true).unwrap();
    cfg.validate().unwrap();

    match cfg.step().unwrap() {
        StepOutcome::Invoked { fuel_consumed, .. } => {
            assert!(fuel_consumed > 0);
            assert!(fuel_consumed <= 100_000);
        },
        other => panic!("expected an invocation, got {:?}", other),
    }
}

#[test]
fn additive_function_reads_fresh_input_each_cycle() {
    let bp = one_function_blueprint(100_000);
    let bytes = vec![wat::parse_str(ADD4_WAT).unwrap()];
    let mut cfg: KernelConfig<MockDriver> =
        bp.to_kernel_config(&bytes, Vec::new(), true).unwrap();
    cfg.validate().unwrap();

    cfg.channels[0].buf = vec![0, 0, 0, 0];
    cfg.step().unwrap();
    assert_eq!(cfg.channels[1].buf, vec![1, 2, 3, 4]);

    // second iteration of the cyclic schedule: the input channel is
    // unchanged, so the produced channel holds the same bytes again
    cfg.step().unwrap();
    assert_eq!(cfg.channels[0].buf, vec![0, 0, 0, 0]);
    assert_eq!(cfg.channels[1].buf, vec![1, 2, 3, 4]);
}

#[test]
fn switching_schedules_resumes_at_second_entry() {
    let bp = Blueprint {
        functions: vec![
            (
                String::from("f"),
                FunctionBp {
                    wasm: String::from("f.wasm"),
                    consumes: Some(String::from("a")),
                    produces: Some(String::from("b")),
                    fuel_per_call: 100_000,
                },
            ),
            (
                String::from("g"),
                FunctionBp {
                    wasm: String::from("g.wasm"),
                    consumes: Some(String::from("a")),
                    produces: Some(String::from("b")),
                    fuel_per_call: 100_000,
                },
            ),
        ],
        channels: vec![
            (String::from("a"), ChannelBp { size: 4 }),
            (String::from("b"), ChannelBp { size: 4 }),
        ],
        schedules: vec![
            (
                String::from("s1"),
                vec![
                    ScheduleBp::Function { function: String::from("f") },
                    ScheduleBp::Schedule { switch_to_schedule: String::from("s2") },
                ],
            ),
            (
                String::from("s2"),
                vec![
                    ScheduleBp::Wait { wait_ns: 0 },
                    ScheduleBp::Function { function: String::from("g") },
                ],
            ),
        ],
        io: Vec::new(),
    };
    let bytes = vec![
        wat::parse_str(COPY4_WAT).unwrap(),
        wat::parse_str(ADD4_WAT).unwrap(),
    ];
    let mut cfg: KernelConfig<MockDriver> =
        bp.to_kernel_config(&bytes, Vec::new(), true).unwrap();
    cfg.validate().unwrap();

    // the first executed action of s1 is its second entry: the switch
    let o1 = cfg.step().unwrap();
    assert_eq!(o1, StepOutcome::Switched { to_schedule_idx: 1 });
    assert_eq!(cfg.current_schedule_idx, 1);
    assert_eq!(cfg.schedules[1].current_action, 0);

    // the next executed action is s2's second entry: function g
    let o2 = cfg.step().unwrap();
    assert!(matches!(o2, StepOutcome::Invoked { function_idx: 1, .. }));

    // then s2 wraps around to its first entry: the wait
    let o3 = cfg.step().unwrap();
    assert_eq!(o3, StepOutcome::Waited { wait_ns: 0 });

    // and then function g again
    let o4 = cfg.step().unwrap();
    assert!(matches!(o4, StepOutcome::Invoked { function_idx: 1, .. }));
}

#[test]
fn fuel_exhaustion_traps_the_invocation() {
    let bp = Blueprint {
        functions: vec![(
            String::from("f"),
            FunctionBp {
                wasm: String::from("f.wasm"),
                consumes: None,
                produces: None,
                fuel_per_call: 10,
            },
        )],
        channels: Vec::new(),
        schedules: vec![(
            String::from("s"),
            vec![ScheduleBp::Function { function: String::from("f") }],
        )],
        io: Vec::new(),
    };
    let bytes = vec![wat::parse_str(SPIN_WAT).unwrap()];
    let mut cfg: KernelConfig<MockDriver> =
        bp.to_kernel_config(&bytes, Vec::new(), true).unwrap();
    cfg.validate().unwrap();

    let r = cfg.step();
    assert!(matches!(r, Err(LwskError::WasmLoadError)));
}

#[test]
fn missing_input_window_skips_the_invocation() {
    let bp = one_function_blueprint(100_000);
    let bytes = vec![wat::parse_str(NO_INPUT_WAT).unwrap()];
    let mut cfg: KernelConfig<MockDriver> =
        bp.to_kernel_config(&bytes, Vec::new(), true).unwrap();

    // validation reports the missing window up front
    assert!(matches!(cfg.validate(), Err(LwskError::WasmLoadError)));

    // the dispatcher skips the invocation with a warning outcome and the
    // channels stay untouched
    let outcome = cfg.step().unwrap();
    assert_eq!(
        outcome,
        StepOutcome::SkippedMissingInput { function_idx: 0 }
    );
    assert_eq!(cfg.channels[0].buf, vec![0, 0, 0, 0]);
    assert_eq!(cfg.channels[1].buf, vec![0, 0, 0, 0]);
}

#[test]
fn validated_windows_are_readable() {
    let bp = one_function_blueprint(100_000);
    let bytes = vec![wat::parse_str(COPY4_WAT).unwrap()];
    let cfg: KernelConfig<MockDriver> = bp.to_kernel_config(&bytes, Vec::new(), true).unwrap();
    cfg.validate().unwrap();

    // after validation the INPUT and OUTPUT globals exist as 32-bit
    // integers and their windows fit the channel sizes
    let f = &cfg.functions[0];
    assert_eq!(f.get_global_idx("INPUT").unwrap(), 0);
    assert_eq!(f.get_global_idx("OUTPUT").unwrap(), 16);
    assert_eq!(f.get_global("INPUT", 4).unwrap().len(), 4);
    assert_eq!(f.get_global("OUTPUT", 4).unwrap().len(), 4);
    assert!(matches!(
        f.get_global_idx("ABSENT"),
        Err(LwskError::GlobalDoesNotExist)
    ));
    // a global that exists but is not a 32-bit integer is told apart
    assert!(matches!(
        f.get_global_idx("WIDE"),
        Err(LwskError::UnexpectedWasmType)
    ));
    // an oversized window reports what was wanted and what is there:
    // one 64 KiB memory page past the INPUT offset of zero
    assert!(matches!(
        f.get_global("INPUT", 1_000_000_000),
        Err(LwskError::BufferTooSmall { expected: 1_000_000_000, got: 65536 })
    ));
    assert!(f.get_entry_function().is_ok());
}

#[test]
fn validate_reports_the_first_error() {
    // functions are scanned before schedules, and a function's consumes
    // side before its produces side: with three dangling handles, the
    // consumes one is reported, with its index
    let mut f = Function::load("f", &wat::parse_str(COPY4_WAT).unwrap()).unwrap();
    f.consumes = Some(9);
    f.produces = Some(8);
    let cfg = KernelConfig::<MockDriver> {
        channels: vec![Channel { name: String::from("a"), buf: vec![0u8; 4] }],
        functions: vec![f],
        schedules: vec![Schedule::new(
            String::from("s"),
            vec![ScheduleEntry::FunctionInvocation(5)],
        )
        .unwrap()],
        io: Vec::new(),
        current_schedule_idx: 0,
    };
    assert!(matches!(cfg.validate(), Err(LwskError::InvalidChannelIdx(9))));
}

#[test]
fn loopback_round_trip_through_drivers() {
    // two channels, a receiving driver and a transmitting driver; the
    // schedule pulls, copies, pushes, so a datagram handed to the receive
    // side arrives at the transmit side after one full cycle
    let bp = Blueprint {
        functions: vec![(
            String::from("copy"),
            FunctionBp {
                wasm: String::from("copy.wasm"),
                consumes: Some(String::from("in")),
                produces: Some(String::from("out")),
                fuel_per_call: 100_000,
            },
        )],
        channels: vec![
            (String::from("in"), ChannelBp { size: 4 }),
            (String::from("out"), ChannelBp { size: 4 }),
        ],
        schedules: vec![(
            String::from("s"),
            vec![
                ScheduleBp::IoIn {
                    from_io: String::from("rx"),
                    to_channel: String::from("in"),
                },
                ScheduleBp::Function { function: String::from("copy") },
                ScheduleBp::IoOut {
                    from_channel: String::from("out"),
                    to_io: String::from("tx"),
                },
            ],
        )],
        io: vec![
            (
                String::from("rx"),
                IoBp::Udp {
                    bind: String::from("127.0.0.1:0"),
                    connect: String::from("127.0.0.1:1"),
                },
            ),
            (
                String::from("tx"),
                IoBp::Udp {
                    bind: String::from("127.0.0.1:2"),
                    connect: String::from("127.0.0.1:3"),
                },
            ),
        ],
    };
    let bytes = vec![wat::parse_str(COPY4_WAT).unwrap()];
    let drivers = vec![
        MockDriver::with(vec![0xAA, 0xBB, 0xCC, 0xDD]),
        MockDriver::empty(),
    ];
    let mut cfg = bp.to_kernel_config(&bytes, drivers, true).unwrap();
    cfg.validate().unwrap();

    // entries run in cyclic order starting at the second one: function,
    // push, pull, function, push — after which the datagram went through
    let mut outcomes = Vec::new();
    for _ in 0..5 {
        outcomes.push(cfg.step().unwrap());
    }
    assert!(matches!(outcomes[0], StepOutcome::Invoked { .. }));
    assert!(matches!(outcomes[1], StepOutcome::Pushed { ok: true, .. }));
    assert!(matches!(
        outcomes[2],
        StepOutcome::Pulled { from_io_idx: 0, to_channel_idx: 0, ok: true }
    ));
    assert!(matches!(outcomes[3], StepOutcome::Invoked { .. }));
    assert!(matches!(outcomes[4], StepOutcome::Pushed { ok: true, .. }));

    assert_eq!(cfg.channels[0].buf, vec![0xAA, 0xBB, 0xCC, 0xDD]);
    assert_eq!(cfg.io[1].sent.len(), 2);
    assert_eq!(cfg.io[1].sent[1], vec![0xAA, 0xBB, 0xCC, 0xDD]);
}

#[test]
fn channel_sizes_never_change() {
    let bp = one_function_blueprint(100_000);
    let bytes = vec![wat::parse_str(COPY4_WAT).unwrap()];
    let mut cfg: KernelConfig<MockDriver> =
        bp.to_kernel_config(&bytes, Vec::new(), true).unwrap();
    cfg.validate().unwrap();
    for _ in 0..6 {
        cfg.step().unwrap();
        assert_eq!(cfg.channels[0].buf.len(), 4);
        assert_eq!(cfg.channels[1].buf.len(), 4);
    }
}

#[test]
fn function_status_is_reported() {
    let bp = one_function_blueprint(100_000);
    let bytes = vec![wat::parse_str(COPY4_WAT).unwrap()];
    let mut cfg: KernelConfig<MockDriver> =
        bp.to_kernel_config(&bytes, Vec::new(), true).unwrap();
    cfg.validate().unwrap();
    match cfg.step().unwrap() {
        StepOutcome::Invoked { status, .. } => assert_eq!(status, 0),
        other => panic!("expected an invocation, got {:?}", other),
    }
}

#[test]
fn transport_errors_are_swallowed() {
    // a failing driver is reported in the outcome but never stalls the
    // schedule: the dispatcher keeps stepping
    let bp = Blueprint {
        functions: Vec::new(),
        channels: vec![(String::from("c"), ChannelBp { size: 4 })],
        schedules: vec![(
            String::from("s"),
            vec![
                ScheduleBp::IoIn {
                    from_io: String::from("u"),
                    to_channel: String::from("c"),
                },
                ScheduleBp::IoOut {
                    from_channel: String::from("c"),
                    to_io: String::from("u"),
                },
                ScheduleBp::Wait { wait_ns: 0 },
            ],
        )],
        io: vec![(
            String::from("u"),
            IoBp::Udp {
                bind: String::from("127.0.0.1:0"),
                connect: String::from("127.0.0.1:1"),
            },
        )],
    };
    let mut cfg = bp
        .to_kernel_config(&Vec::new(), vec![MockDriver::broken()], true)
        .unwrap();
    cfg.validate().unwrap();

    let o1 = cfg.step().unwrap();
    assert!(matches!(o1, StepOutcome::Pushed { ok: false, .. }));
    let o2 = cfg.step().unwrap();
    assert_eq!(o2, StepOutcome::Waited { wait_ns: 0 });
    let o3 = cfg.step().unwrap();
    assert!(matches!(o3, StepOutcome::Pulled { ok: false, .. }));
    assert_eq!(cfg.channels[0].buf, vec![0, 0, 0, 0]);
}
