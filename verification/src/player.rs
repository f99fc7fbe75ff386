//! The rules of the player character: what a key press sets off, what it
//! costs in stamina, and how the animations step through their frames.

use vstd::prelude::*;

verus! {

/// The stamina of a rested player, and the most that rest restores.
pub const FULL_STAMINA: i64 = 100;

/// The stamina that rest restores each time the recovery timer runs out.
pub const STAMINA_RECOVERY: i64 = 15;

/// The stamina that a dash costs.
pub const DASH_COST: i64 = 25;

/// The stamina that an attack costs.
pub const ATTACK_COST: i64 = 10;

/// The stamina that a charged attack costs.
pub const CHARGED_ATTACK_COST: i64 = 75;

/// What the player is doing, with the phase that the animation has reached.
#[derive(Clone, Copy, Debug, PartialEq, Eq, Structural)]
pub enum Animation {
    Run(u8),
    Death(u8),
    Dash(u8),
    Attack(u8),
    ChargedAttack(u8),
}

/// The keys that matter to the player, as the engine reports them for one
/// frame.
#[derive(Clone, Copy, Debug, PartialEq, Eq, Structural)]
pub struct Keys {
    /// The dash key went down in this frame.
    pub dash: bool,
    /// The attack key went down in this frame.
    pub attack: bool,
    /// The key of the charged attack went down in this frame.
    pub charged_attack: bool,
    /// The jump key went down in this frame.
    pub jump: bool,
    /// The key to the right is held down.
    pub right: bool,
    /// The key to the right came up in this frame.
    pub right_released: bool,
    /// The key to the left is held down.
    pub left: bool,
    /// The key to the left came up in this frame.
    pub left_released: bool,
    /// The key that kills the player went down in this frame.
    pub die: bool,
}

/// What a frame's keys set off.
#[derive(Clone, Copy, Debug, PartialEq, Eq, Structural)]
pub enum Action {
    /// Nothing: no key of the player was used, the player is not running,
    /// or the stamina does not pay for what was asked.
    Nothing,
    /// A dash in the direction the player faces.
    Dash,
    Attack,
    ChargedAttack,
    Jump,
    /// Walking to the right at full speed.
    WalkRight,
    /// Slowing down after walking to the right.
    SlowRight,
    /// Walking to the left at full speed.
    WalkLeft,
    /// Slowing down after walking to the left.
    SlowLeft,
    Die,
}

/// The player after a frame's keys were handled.
#[derive(Clone, Copy, Debug, PartialEq, Eq, Structural)]
pub struct Response {
    pub action: Action,
    pub stamina: i64,
    pub animation: Animation,
}

/// What one step of an animation shows and leads to.
#[derive(Clone, Copy, Debug, PartialEq, Eq, Structural)]
pub struct Frame {
    /// The index of the sprite to show.
    pub sprite: usize,
    /// The animation and phase that follow.
    pub animation: Animation,
    /// Whether the player comes to a halt: a dash has ended.
    pub halt: bool,
}

/// The action that the keys ask for: the first of dash, attack, charged
/// attack, jump, right, right released, left, left released and die whose key
/// was used.
pub open spec fn asked(keys: Keys) -> Action {
    if keys.dash {
        Action::Dash
    } else if keys.attack {
        Action::Attack
    } else if keys.charged_attack {
        Action::ChargedAttack
    } else if keys.jump {
        Action::Jump
    } else if keys.right {
        Action::WalkRight
    } else if keys.right_released {
        Action::SlowRight
    } else if keys.left {
        Action::WalkLeft
    } else if keys.left_released {
        Action::SlowLeft
    } else if keys.die {
        Action::Die
    } else {
        Action::Nothing
    }
}

/// The stamina that an action costs.
pub open spec fn cost(action: Action) -> int {
    match action {
        Action::Dash => DASH_COST as int,
        Action::Attack => ATTACK_COST as int,
        Action::ChargedAttack => CHARGED_ATTACK_COST as int,
        _ => 0,
    }
}

/// Whether the stamina pays for an action. What costs nothing is paid for
/// whatever the stamina.
pub open spec fn pays_for(stamina: int, action: Action) -> bool {
    cost(action) == 0 || stamina >= cost(action)
}

/// The action that a frame's keys set off: the one they ask for, but nothing
/// while the player is not running, and nothing where the stamina does not
/// pay for it.
pub open spec fn action_taken(stamina: int, animation: Animation, keys: Keys) -> Action {
    if animation is Run && pays_for(stamina, asked(keys)) {
        asked(keys)
    } else {
        Action::Nothing
    }
}

/// The animation that an action starts, if it starts one.
pub open spec fn animation_started(action: Action) -> Option<Animation> {
    match action {
        Action::Dash => Some(Animation::Dash(0)),
        Action::Attack => Some(Animation::Attack(0)),
        Action::ChargedAttack => Some(Animation::ChargedAttack(0)),
        Action::Die => Some(Animation::Death(0)),
        _ => None,
    }
}

/// Handles the keys of one frame. Only a running player acts. A dash, an
/// attack and a charged attack are paid for in stamina and are not started
/// where the stamina falls short; they and dying start their animation at
/// phase 0. Everything else leaves stamina and animation as they are.
pub fn handle_input(stamina: i64, animation: Animation, keys: Keys) -> (response: Response)
    ensures
        response.action == action_taken(stamina as int, animation, keys),
        response.stamina == stamina - cost(response.action),
        response.animation == match animation_started(response.action) {
            Some(started) => started,
            None => animation,
        },
{
    let unchanged = Response { action: Action::Nothing, stamina, animation };
    match animation {
        Animation::Run(_) => {},
        _ => {
            return unchanged;
        },
    }
    if keys.dash {
        if stamina < DASH_COST {
            return unchanged;
        }
        Response {
            action: Action::Dash,
            stamina: stamina - DASH_COST,
            animation: Animation::Dash(0),
        }
    } else if keys.attack {
        if stamina < ATTACK_COST {
            return unchanged;
        }
        Response {
            action: Action::Attack,
            stamina: stamina - ATTACK_COST,
            animation: Animation::Attack(0),
        }
    } else if keys.charged_attack {
        if stamina < CHARGED_ATTACK_COST {
            return unchanged;
        }
        Response {
            action: Action::ChargedAttack,
            stamina: stamina - CHARGED_ATTACK_COST,
            animation: Animation::ChargedAttack(0),
        }
    } else if keys.jump {
        Response { action: Action::Jump, stamina, animation }
    } else if keys.right {
        Response { action: Action::WalkRight, stamina, animation }
    } else if keys.right_released {
        Response { action: Action::SlowRight, stamina, animation }
    } else if keys.left {
        Response { action: Action::WalkLeft, stamina, animation }
    } else if keys.left_released {
        Response { action: Action::SlowLeft, stamina, animation }
    } else if keys.die {
        Response { action: Action::Die, stamina, animation: Animation::Death(0) }
    } else {
        unchanged
    }
}

/// The stamina after one round of rest: `STAMINA_RECOVERY` more, but no more
/// than `FULL_STAMINA`.
pub open spec fn rested(stamina: int) -> int {
    if stamina + STAMINA_RECOVERY > FULL_STAMINA {
        FULL_STAMINA as int
    } else {
        stamina + STAMINA_RECOVERY
    }
}

/// Restores stamina when the recovery timer has run out.
pub fn recover_stamina(stamina: i64) -> (recovered: i64)
    ensures
        recovered == rested(stamina as int),
{
    if stamina > FULL_STAMINA - STAMINA_RECOVERY {
        FULL_STAMINA
    } else {
        stamina + STAMINA_RECOVERY
    }
}

/// The way the player faces: a running player turns the way of the key that
/// is held, the right one first; otherwise the player faces as before.
pub open spec fn facing(animation: Animation, facing_left: bool, keys: Keys) -> bool {
    if animation is Run && keys.right {
        false
    } else if animation is Run && keys.left {
        true
    } else {
        facing_left
    }
}

/// Turns the player the way of the keys. The result says whether the player
/// faces left.
pub fn faces_left(animation: Animation, facing_left: bool, keys: Keys) -> (left: bool)
    ensures
        left == facing(animation, facing_left, keys),
{
    match animation {
        Animation::Run(_) => {
            if keys.right {
                false
            } else if keys.left {
                true
            } else {
                facing_left
            }
        },
        _ => facing_left,
    }
}

/// The phase that an animation has reached.
pub open spec fn phase_of(animation: Animation) -> int {
    match animation {
        Animation::Run(phase) => phase as int,
        Animation::Death(phase) => phase as int,
        Animation::Dash(phase) => phase as int,
        Animation::Attack(phase) => phase as int,
        Animation::ChargedAttack(phase) => phase as int,
    }
}

/// Whether the phase of an animation is one that its steps reach from
/// phase 0.
pub open spec fn in_cycle(animation: Animation) -> bool {
    match animation {
        Animation::Run(phase) => phase < 6,
        Animation::Death(phase) => phase < 22,
        Animation::Dash(phase) => phase < 3,
        Animation::Attack(phase) => phase < 11 && phase % 2 == 0,
        Animation::ChargedAttack(phase) => phase < 11,
    }
}

/// Whether the animation can be stepped: whether the phase counter, a `u8`,
/// holds the phase after the one it has reached.
pub open spec fn steppable(animation: Animation, moving: bool) -> bool {
    match animation {
        Animation::Run(phase) => !moving || phase < 255,
        Animation::Attack(phase) => phase < 254,
        _ => phase_of(animation) < 255,
    }
}

/// Tells whether the animation can be stepped.
pub fn can_step(animation: Animation, moving: bool) -> (ok: bool)
    ensures
        ok == steppable(animation, moving),
{
    match animation {
        Animation::Run(phase) => !moving || phase < u8::MAX,
        Animation::Attack(phase) => phase < u8::MAX - 1,
        Animation::Death(phase) => phase < u8::MAX,
        Animation::Dash(phase) => phase < u8::MAX,
        Animation::ChargedAttack(phase) => phase < u8::MAX,
    }
}

/// The sprite that a step of the animation shows.
pub open spec fn sprite_shown(animation: Animation, moving: bool) -> int {
    match animation {
        Animation::Run(phase) => if moving {
            23 + phase
        } else {
            92
        },
        Animation::Dash(phase) => phase as int,
        Animation::Death(phase) => 92 + phase,
        Animation::Attack(phase) => 46 + phase,
        Animation::ChargedAttack(phase) => 46 + phase,
    }
}

/// The animation that follows a step. The run cycles through 6 phases while
/// the player moves and stands still otherwise; every other animation ends
/// in the run at phase 0.
pub open spec fn next_animation(animation: Animation, moving: bool) -> Animation {
    match animation {
        Animation::Run(phase) => if moving {
            Animation::Run(((phase + 1) % 6) as u8)
        } else {
            animation
        },
        Animation::Dash(phase) => if phase + 1 == 3 {
            Animation::Run(0)
        } else {
            Animation::Dash((phase + 1) as u8)
        },
        Animation::Death(phase) => if (phase + 1) % 23 == 22 {
            Animation::Run(0)
        } else {
            Animation::Death(((phase + 1) % 23) as u8)
        },
        Animation::Attack(phase) => if (phase + 2) % 13 >= 11 {
            Animation::Run(0)
        } else {
            Animation::Attack(((phase + 2) % 13) as u8)
        },
        Animation::ChargedAttack(phase) => if (phase + 1) % 13 == 11 {
            Animation::Run(0)
        } else {
            Animation::ChargedAttack(((phase + 1) % 13) as u8)
        },
    }
}

/// Steps the animation when the animation timer has run out. `moving` says
/// whether a key to the left or to the right is held.
pub fn animate(animation: Animation, moving: bool) -> (frame: Frame)
    requires
        steppable(animation, moving),
    ensures
        frame.sprite == sprite_shown(animation, moving),
        frame.animation == next_animation(animation, moving),
        frame.halt == (animation is Dash && frame.animation is Run),
{
    match animation {
        Animation::Run(phase) => {
            if moving {
                Frame {
                    sprite: 23 + phase as usize,
                    animation: Animation::Run((phase + 1) % 6),
                    halt: false,
                }
            } else {
                Frame { sprite: 92, animation, halt: false }
            }
        },
        Animation::Dash(phase) => {
            let next = phase + 1;
            if next == 3 {
                Frame { sprite: phase as usize, animation: Animation::Run(0), halt: true }
            } else {
                Frame { sprite: phase as usize, animation: Animation::Dash(next), halt: false }
            }
        },
        Animation::Death(phase) => {
            let next = (phase + 1) % 23;
            if next == 22 {
                Frame { sprite: 92 + phase as usize, animation: Animation::Run(0), halt: false }
            } else {
                Frame { sprite: 92 + phase as usize, animation: Animation::Death(next), halt: false }
            }
        },
        Animation::Attack(phase) => {
            let next = (phase + 2) % 13;
            if next >= 11 {
                Frame { sprite: 46 + phase as usize, animation: Animation::Run(0), halt: false }
            } else {
                Frame { sprite: 46 + phase as usize, animation: Animation::Attack(next), halt: false }
            }
        },
        Animation::ChargedAttack(phase) => {
            let next = (phase + 1) % 13;
            if next == 11 {
                Frame { sprite: 46 + phase as usize, animation: Animation::Run(0), halt: false }
            } else {
                Frame {
                    sprite: 46 + phase as usize,
                    animation: Animation::ChargedAttack(next),
                    halt: false,
                }
            }
        },
    }
}

/// An animation whose phase lies in its cycle can be stepped, and the step
/// leads to a phase in the cycle of the animation that follows.
pub proof fn lemma_steps_stay_in_cycle(animation: Animation, moving: bool)
    requires
        in_cycle(animation),
    ensures
        steppable(animation, moving),
        in_cycle(next_animation(animation, moving)),
{
}

/// An action never raises the stamina and never drives it below 0, and the
/// animation that it starts begins within its cycle.
pub proof fn lemma_action_is_paid_for(stamina: int, animation: Animation, keys: Keys)
    requires
        0 <= stamina,
    ensures
        0 <= stamina - cost(action_taken(stamina, animation, keys)) <= stamina,
        match animation_started(action_taken(stamina, animation, keys)) {
            Some(started) => in_cycle(started),
            None => true,
        },
{
}

} // verus!
