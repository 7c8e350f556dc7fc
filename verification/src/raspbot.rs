use vstd::prelude::*;

verus! {

/// The I2C address of the Raspbot motor controller.
pub const RASBOT_I2C_ADDRESS: u16 = 0x2B;

/// The controller register that takes a wheel motor command.
pub const MOVE_WHEEL_REGISTER: u8 = 0x01;

/// One of the four wheel motors.
#[derive(Debug, Clone, Copy, PartialEq, Eq, Structural)]
pub enum MotorId {
    Zero,
    One,
    Two,
    Three,
}

/// The direction a wheel turns.
#[derive(Debug, Clone, Copy, PartialEq, Eq, Structural)]
pub enum MotorDirection {
    Forward,
    Backward,
}

/// A command for one wheel.
#[derive(Debug, Clone, Copy, PartialEq, Eq, Structural)]
pub struct MotorInfo {
    pub id: MotorId,
    pub direction: MotorDirection,
    pub speed: u8,
}

/// The wire code of a motor.
pub open spec fn motor_code(id: MotorId) -> u8 {
    match id {
        MotorId::Zero => 0,
        MotorId::One => 1,
        MotorId::Two => 2,
        MotorId::Three => 3,
    }
}

/// The wire code of a direction.
pub open spec fn direction_code(d: MotorDirection) -> u8 {
    match d {
        MotorDirection::Forward => 0,
        MotorDirection::Backward => 1,
    }
}

/// The three bytes written to the wheel register: motor, direction, speed.
pub fn wheel_payload(motor_info: &MotorInfo) -> (data: [u8; 3])
    ensures
        data@ == seq![motor_code(motor_info.id), direction_code(motor_info.direction), motor_info.speed],
{
    let id: u8 = match motor_info.id {
        MotorId::Zero => 0,
        MotorId::One => 1,
        MotorId::Two => 2,
        MotorId::Three => 3,
    };
    let direction: u8 = match motor_info.direction {
        MotorDirection::Forward => 0,
        MotorDirection::Backward => 1,
    };
    let data: [u8; 3] = [id, direction, motor_info.speed];
    assert(data@ =~= seq![motor_code(motor_info.id), direction_code(motor_info.direction), motor_info.speed]);
    data
}

/// A wheel command.
pub open spec fn cmd(id: MotorId, direction: MotorDirection, speed: u8) -> MotorInfo {
    MotorInfo { id, direction, speed }
}

/// Sliding right: motors 0 and 3 forward, then 1 and 2 backward.
pub open spec fn right_plan(speed: u8) -> Seq<MotorInfo> {
    seq![
        cmd(MotorId::Zero, MotorDirection::Forward, speed),
        cmd(MotorId::Three, MotorDirection::Forward, speed),
        cmd(MotorId::One, MotorDirection::Backward, speed),
        cmd(MotorId::Two, MotorDirection::Backward, speed),
    ]
}

/// Sliding left: motors 0 and 3 backward, then 1 and 2 forward.
pub open spec fn left_plan(speed: u8) -> Seq<MotorInfo> {
    seq![
        cmd(MotorId::Zero, MotorDirection::Backward, speed),
        cmd(MotorId::Three, MotorDirection::Backward, speed),
        cmd(MotorId::One, MotorDirection::Forward, speed),
        cmd(MotorId::Two, MotorDirection::Forward, speed),
    ]
}

/// The commands that stop every wheel: speed 0 on motors 0 to 3.
pub fn stop_all_wheels() -> (cmds: Vec<MotorInfo>)
    ensures
        cmds@ == seq![
            cmd(MotorId::Zero, MotorDirection::Backward, 0),
            cmd(MotorId::One, MotorDirection::Backward, 0),
            cmd(MotorId::Two, MotorDirection::Backward, 0),
            cmd(MotorId::Three, MotorDirection::Backward, 0),
        ],
{
    let mut cmds: Vec<MotorInfo> = Vec::new();
    cmds.push(MotorInfo { id: MotorId::Zero, direction: MotorDirection::Backward, speed: 0 });
    cmds.push(MotorInfo { id: MotorId::One, direction: MotorDirection::Backward, speed: 0 });
    cmds.push(MotorInfo { id: MotorId::Two, direction: MotorDirection::Backward, speed: 0 });
    cmds.push(MotorInfo { id: MotorId::Three, direction: MotorDirection::Backward, speed: 0 });
    assert(cmds@ =~= seq![
        cmd(MotorId::Zero, MotorDirection::Backward, 0),
        cmd(MotorId::One, MotorDirection::Backward, 0),
        cmd(MotorId::Two, MotorDirection::Backward, 0),
        cmd(MotorId::Three, MotorDirection::Backward, 0),
    ]);
    cmds
}

/// The commands that slide the bot right: motors 0 and 3 forward, then 1 and
/// 2 backward.
pub fn move_bot_right(speed: u8) -> (cmds: Vec<MotorInfo>)
    ensures
        cmds@ == right_plan(speed),
{
    let mut cmds: Vec<MotorInfo> = Vec::new();
    cmds.push(MotorInfo { id: MotorId::Zero, direction: MotorDirection::Forward, speed });
    cmds.push(MotorInfo { id: MotorId::Three, direction: MotorDirection::Forward, speed });
    cmds.push(MotorInfo { id: MotorId::One, direction: MotorDirection::Backward, speed });
    cmds.push(MotorInfo { id: MotorId::Two, direction: MotorDirection::Backward, speed });
    assert(cmds@ =~= right_plan(speed));
    cmds
}

/// The commands that slide the bot left: motors 0 and 3 backward, then 1 and
/// 2 forward.
pub fn move_bot_left(speed: u8) -> (cmds: Vec<MotorInfo>)
    ensures
        cmds@ == left_plan(speed),
{
    let mut cmds: Vec<MotorInfo> = Vec::new();
    cmds.push(MotorInfo { id: MotorId::Zero, direction: MotorDirection::Backward, speed });
    cmds.push(MotorInfo { id: MotorId::Three, direction: MotorDirection::Backward, speed });
    cmds.push(MotorInfo { id: MotorId::One, direction: MotorDirection::Forward, speed });
    cmds.push(MotorInfo { id: MotorId::Two, direction: MotorDirection::Forward, speed });
    assert(cmds@ =~= left_plan(speed));
    cmds
}

/// Law (sliding is symmetric): sliding left drives every wheel in the
/// direction opposite to sliding right, at the same speed.
pub proof fn lemma_left_mirrors_right(speed: u8)
    ensures
        forall|i: int|
            0 <= i < 4 ==> left_plan(speed)[i].id == right_plan(speed)[i].id
                && left_plan(speed)[i].speed == right_plan(speed)[i].speed
                && left_plan(speed)[i].direction != right_plan(speed)[i].direction,
{
}

} // verus!
