use compute_dispatch::payload::{encode_le, input_bytes, input_values};
use compute_dispatch::plan::{plan_dispatch, record_commands, replay, Command, DispatchPlan};
use compute_dispatch::run::{first_step, next_step, CompletionFlag, Event, Step};

const FIXED_BYTES: [u8; 32] = [
    117, 0, 0, 0, 114, 0, 0, 0, 121, 0, 0, 0, 121, 0, 0, 0, 98, 0, 0, 0, 32, 0, 0, 0, 106, 0, 0,
    0, 98, 0, 0, 0,
];

fn drive(events: &[Event]) -> Step {
    let mut s = first_step();
    for e in events {
        s = next_step(s, *e);
    }
    s
}

#[test]
fn input_values_are_fixed() {
    assert_eq!(input_values(), vec![117, 114, 121, 121, 98, 32, 106, 98]);
}

#[test]
fn input_bytes_are_little_endian_payload() {
    assert_eq!(input_bytes(), FIXED_BYTES.to_vec());
}

#[test]
fn encode_le_orders_bytes_least_significant_first() {
    assert_eq!(encode_le(&vec![0x0403_0201u32, 0xffff_ffff]), vec![1, 2, 3, 4, 255, 255, 255, 255]);
    assert_eq!(encode_le(&vec![256u32]), vec![0, 1, 0, 0]);
    assert_eq!(encode_le(&vec![]), Vec::<u8>::new());
}

#[test]
fn plan_for_fixed_input() {
    let plan = plan_dispatch(&input_values());
    assert_eq!(
        plan,
        DispatchPlan {
            input_size: 32,
            output_size: 32,
            workgroups_x: 8,
            workgroups_y: 1,
            workgroups_z: 1,
            binding: 0,
        }
    );
}

#[test]
fn plan_scales_with_element_count() {
    let plan = plan_dispatch(&vec![5, 6, 7]);
    assert_eq!(plan.workgroups_x, 3);
    assert_eq!(plan.input_size, 12);
    assert_eq!(plan.output_size, plan.input_size);
    let empty = plan_dispatch(&vec![]);
    assert_eq!(empty.workgroups_x, 0);
    assert_eq!(empty.output_size, 0);
}

#[test]
fn commands_dispatch_then_copy() {
    let plan = plan_dispatch(&input_values());
    assert_eq!(
        record_commands(&plan),
        vec![
            Command::Dispatch { x: 8, y: 1, z: 1 },
            Command::CopyInputToOutput { size: 32 },
        ]
    );
}

#[test]
fn readback_equals_input_bytes() {
    let input = input_bytes();
    let plan = plan_dispatch(&input_values());
    let cmds = record_commands(&plan);
    let mut output = vec![0u8; plan.output_size as usize];
    replay(&cmds, &input, &mut output);
    assert_eq!(output, FIXED_BYTES.to_vec());
}

#[test]
fn readback_overwrites_earlier_output() {
    let input = encode_le(&vec![9, 10]);
    let cmds = record_commands(&plan_dispatch(&vec![9, 10]));
    let mut output = vec![0xaa; 8];
    replay(&cmds, &input, &mut output);
    assert_eq!(output, vec![9, 0, 0, 0, 10, 0, 0, 0]);
}

#[test]
fn dispatch_alone_leaves_output() {
    let mut output = vec![7u8; 4];
    replay(&vec![Command::Dispatch { x: 1, y: 1, z: 1 }], &vec![1, 2, 3, 4], &mut output);
    assert_eq!(output, vec![7, 7, 7, 7]);
}

#[test]
fn partial_copy_keeps_the_rest() {
    let mut output = vec![7u8; 4];
    replay(&vec![Command::CopyInputToOutput { size: 2 }], &vec![1, 2, 3, 4], &mut output);
    assert_eq!(output, vec![1, 2, 7, 7]);
}

#[test]
fn overrunning_copy_changes_nothing() {
    let mut output = vec![7u8; 4];
    replay(&vec![Command::CopyInputToOutput { size: 8 }], &vec![1, 2, 3, 4, 5, 6, 7, 8], &mut output);
    assert_eq!(output, vec![7, 7, 7, 7]);
}

#[test]
fn full_run_finishes() {
    let events = [
        Event::Done,
        Event::Done,
        Event::Done,
        Event::Done,
        Event::Done,
        Event::Done,
        Event::Polled { queue_empty: false },
        Event::Polled { queue_empty: true },
        Event::FlagRead { mapped: false },
        Event::Polled { queue_empty: true },
        Event::FlagRead { mapped: true },
    ];
    assert_eq!(drive(&events), Step::ReadBack);
    assert_eq!(next_step(Step::ReadBack, Event::Done), Step::Finished);
}

#[test]
fn setup_steps_in_order() {
    let mut s = first_step();
    let mut seen = vec![s];
    for _ in 0..6 {
        s = next_step(s, Event::Done);
        seen.push(s);
    }
    assert_eq!(
        seen,
        vec![
            Step::AcquireDevice,
            Step::CreateBuffers,
            Step::CompileKernel,
            Step::BindAndRecord,
            Step::Submit,
            Step::RequestMap,
            Step::Poll,
        ]
    );
}

#[test]
fn acquire_failure_aborts_before_resources() {
    assert_eq!(first_step(), Step::AcquireDevice);
    assert_eq!(drive(&[Event::Failed]), Step::Aborted);
    assert_eq!(drive(&[Event::Failed, Event::Done, Event::Done]), Step::Aborted);
}

#[test]
fn every_failure_is_fatal() {
    for s in [Step::CompileKernel, Step::Poll, Step::CheckFlag, Step::ReadBack] {
        assert_eq!(next_step(s, Event::Failed), Step::Aborted);
    }
    assert_eq!(next_step(Step::Finished, Event::Failed), Step::Finished);
}

#[test]
fn poll_repeats_until_queue_empty() {
    assert_eq!(next_step(Step::Poll, Event::Polled { queue_empty: false }), Step::Poll);
    assert_eq!(next_step(Step::Poll, Event::Polled { queue_empty: true }), Step::CheckFlag);
    assert_eq!(next_step(Step::CheckFlag, Event::FlagRead { mapped: false }), Step::Poll);
    assert_eq!(next_step(Step::CheckFlag, Event::FlagRead { mapped: true }), Step::ReadBack);
}

#[test]
fn flag_not_read_back_before_drain() {
    assert_eq!(next_step(Step::Poll, Event::FlagRead { mapped: true }), Step::Poll);
    assert_eq!(next_step(Step::CheckFlag, Event::Done), Step::CheckFlag);
}

#[test]
fn flag_set_by_callback() {
    let mut flag = CompletionFlag::new();
    assert!(!flag.is_mapped());
    flag.signal();
    assert!(flag.is_mapped());
}
