use vstd::prelude::*;

verus! {

/// What the run asks of the device: buffer sizes in bytes, the workgroup grid
/// and the binding slot of the kernel's one storage buffer.
#[derive(PartialEq, Eq, Structural, Clone, Copy, Debug)]
pub struct DispatchPlan {
    pub input_size: u64,
    pub output_size: u64,
    pub workgroups_x: u32,
    pub workgroups_y: u32,
    pub workgroups_z: u32,
    pub binding: u32,
}

/// One recorded device operation.
#[derive(PartialEq, Eq, Structural, Clone, Copy, Debug)]
pub enum Command {
    /// Run the kernel over an `x` by `y` by `z` grid of workgroups.
    Dispatch { x: u32, y: u32, z: u32 },
    /// Copy the first `size` bytes of the input buffer to the start of the
    /// output buffer.
    CopyInputToOutput { size: u64 },
}

/// The binding slot at which the kernel sees the input buffer.
pub const STORAGE_BINDING: u32 = 0;

/// The plan for `n` elements of four bytes: one workgroup per element, and an
/// output buffer exactly as large as the input buffer.
pub open spec fn plan_for(n: nat) -> DispatchPlan {
    DispatchPlan {
        input_size: (4 * n) as u64,
        output_size: (4 * n) as u64,
        workgroups_x: n as u32,
        workgroups_y: 1,
        workgroups_z: 1,
        binding: 0,
    }
}

/// The command sequence for a plan: the dispatch, then a copy of the whole
/// input buffer into the output buffer.
pub open spec fn commands_for(p: DispatchPlan) -> Seq<Command> {
    seq![
        Command::Dispatch { x: p.workgroups_x, y: p.workgroups_y, z: p.workgroups_z },
        Command::CopyInputToOutput { size: p.input_size },
    ]
}

/// The output buffer's bytes after one command. The kernel's own writes are
/// not part of this model: a dispatch leaves the bytes the host can see as
/// they were. A copy that would overrun either buffer is rejected by the
/// device and changes nothing.
pub open spec fn apply(c: Command, input: Seq<u8>, output: Seq<u8>) -> Seq<u8> {
    match c {
        Command::Dispatch { .. } => output,
        Command::CopyInputToOutput { size } => {
            if size <= input.len() && size <= output.len() {
                input.take(size as int) + output.skip(size as int)
            } else {
                output
            }
        },
    }
}

/// The output buffer's bytes after a command sequence runs in order.
pub open spec fn output_after(cmds: Seq<Command>, input: Seq<u8>, output: Seq<u8>) -> Seq<u8>
    decreases cmds.len(),
{
    if cmds.len() == 0 {
        output
    } else {
        apply(cmds.last(), input, output_after(cmds.drop_last(), input, output))
    }
}

/// Plans the dispatch over `values`.
pub fn plan_dispatch(values: &Vec<u32>) -> (r: DispatchPlan)
    requires
        values@.len() <= u32::MAX,
    ensures
        r == plan_for(values@.len()),
        r.workgroups_x as nat == values@.len(),
        r.input_size as nat == 4 * values@.len(),
        r.output_size == r.input_size,
{
    let n = values.len();
    let size = 4 * (n as u64);
    DispatchPlan {
        input_size: size,
        output_size: size,
        workgroups_x: n as u32,
        workgroups_y: 1,
        workgroups_z: 1,
        binding: STORAGE_BINDING,
    }
}

/// Records the command sequence of a plan, in submission order.
pub fn record_commands(plan: &DispatchPlan) -> (r: Vec<Command>)
    ensures
        r@ == commands_for(*plan),
{
    let mut r: Vec<Command> = Vec::new();
    r.push(Command::Dispatch { x: plan.workgroups_x, y: plan.workgroups_y, z: plan.workgroups_z });
    r.push(Command::CopyInputToOutput { size: plan.input_size });
    assert(r@ =~= commands_for(*plan));
    r
}

/// Replays a command sequence on host copies of the two buffers, giving the
/// bytes that a readback of the output buffer shows afterwards.
pub fn replay(cmds: &Vec<Command>, input: &Vec<u8>, output: &mut Vec<u8>)
    ensures
        final(output)@ == output_after(cmds@, input@, old(output)@),
{
    let mut i: usize = 0;
    while i < cmds.len()
        invariant
            i <= cmds@.len(),
            output@ == output_after(cmds@.take(i as int), input@, old(output)@),
        decreases cmds@.len() - i,
    {
        proof {
            assert(cmds@.take(i + 1).drop_last() =~= cmds@.take(i as int));
        }
        match cmds[i] {
            Command::Dispatch { .. } => {},
            Command::CopyInputToOutput { size } => {
                if size <= input.len() as u64 && size <= output.len() as u64 {
                    let ghost before = output@;
                    let n = size as usize;
                    let mut j: usize = 0;
                    while j < n
                        invariant
                            n <= input@.len(),
                            n <= before.len(),
                            j <= n,
                            output@ == input@.take(j as int) + before.skip(j as int),
                        decreases n - j,
                    {
                        output.set(j, input[j]);
                        assert(output@ =~= input@.take(j + 1) + before.skip(j + 1));
                        j = j + 1;
                    }
                }
            },
        }
        i = i + 1;
    }
    assert(cmds@.take(cmds@.len() as int) =~= cmds@);
}

/// The recorded sequence copies the input through unchanged: whatever the
/// output buffer held before, once the commands of the plan for the input's
/// elements have run, its bytes are exactly the input bytes.
pub proof fn lemma_readback_is_input(input: Seq<u8>, output: Seq<u8>)
    requires
        input.len() % 4 == 0,
        input.len() / 4 <= u32::MAX,
        output.len() == input.len(),
    ensures
        output_after(commands_for(plan_for(input.len() / 4)), input, output) == input,
{
    let p = plan_for(input.len() / 4);
    let cmds = commands_for(p);
    let first = cmds.drop_last();
    assert(first.drop_last() =~= Seq::<Command>::empty());
    assert(output_after(first.drop_last(), input, output) == output);
    assert(output_after(first, input, output) == output);
    assert(p.input_size == input.len());
    assert(input.take(input.len() as int) + output.skip(output.len() as int) =~= input);
    assert(output_after(cmds, input, output) == apply(cmds.last(), input, output));
}

} // verus!
