//! Mouse events as rows of synthetic inputs.
//!
//! Points are carried through as they come: their type is the caller's.
use crate::adapter::WindowsAdapter;
use crate::error::AdapterError;
use vstd::prelude::*;

verus! {

pub const MOVE_FLAG: u32 = 0x0001;

pub const LEFT_DOWN_FLAG: u32 = 0x0002;

pub const LEFT_UP_FLAG: u32 = 0x0004;

pub const RIGHT_DOWN_FLAG: u32 = 0x0008;

pub const RIGHT_UP_FLAG: u32 = 0x0010;

pub const MIDDLE_DOWN_FLAG: u32 = 0x0020;

pub const MIDDLE_UP_FLAG: u32 = 0x0040;

/// The coordinates count from the corner of the screen.
pub const ABSOLUTE_FLAG: u32 = 0x8000;

#[derive(Debug, Clone, Copy, PartialEq, Eq)]
pub enum MouseButton {
    Left,
    Right,
    Middle,
}

#[derive(Debug, Clone, Copy, PartialEq, Eq)]
pub enum MouseEventKind {
    Move,
    Down,
    Up,
    /// `count` times down and up.
    Click { count: u32 },
}

/// A mouse event at a point.
#[derive(Debug, PartialEq, Eq)]
pub struct MouseEvent<P> {
    pub kind: MouseEventKind,
    pub button: MouseButton,
    pub point: P,
}

/// Where a drag begins and ends.
#[derive(Debug, PartialEq, Eq)]
pub struct DragParams<P> {
    pub from: P,
    pub to: P,
}

/// One synthetic input: what happens, and where.
#[derive(Debug, PartialEq, Eq)]
pub struct MouseInput<P> {
    pub flags: u32,
    pub point: P,
}

/// The flags of a button that goes down.
pub open spec fn down_flags(button: MouseButton) -> u32 {
    match button {
        MouseButton::Left => LEFT_DOWN_FLAG | ABSOLUTE_FLAG,
        MouseButton::Right => RIGHT_DOWN_FLAG | ABSOLUTE_FLAG,
        MouseButton::Middle => MIDDLE_DOWN_FLAG | ABSOLUTE_FLAG,
    }
}

/// The flags of a button that goes up.
pub open spec fn up_flags(button: MouseButton) -> u32 {
    match button {
        MouseButton::Left => LEFT_UP_FLAG | ABSOLUTE_FLAG,
        MouseButton::Right => RIGHT_UP_FLAG | ABSOLUTE_FLAG,
        MouseButton::Middle => MIDDLE_UP_FLAG | ABSOLUTE_FLAG,
    }
}

/// The flags of the inputs that an event consists of.
pub open spec fn input_flags(kind: MouseEventKind, button: MouseButton) -> Seq<u32> {
    match kind {
        MouseEventKind::Move => seq![MOVE_FLAG | ABSOLUTE_FLAG],
        MouseEventKind::Down => seq![down_flags(button)],
        MouseEventKind::Up => seq![up_flags(button)],
        MouseEventKind::Click { count } => Seq::new(
            2 * count as nat,
            |i: int|
                if i % 2 == 0 {
                    down_flags(button)
                } else {
                    up_flags(button)
                },
        ),
    }
}

/// The inputs that an event consists of, all at the point of the event.
pub open spec fn event_inputs<P>(event: MouseEvent<P>) -> Seq<MouseInput<P>> {
    input_flags(event.kind, event.button).map_values(
        |flags: u32| MouseInput { flags, point: event.point },
    )
}

/// The inputs of a drag: to the first point, button down, to the second point, button up.
pub open spec fn drag_inputs<P>(params: DragParams<P>) -> Seq<MouseInput<P>> {
    let left = MouseButton::Left;
    event_inputs(MouseEvent { kind: MouseEventKind::Move, button: left, point: params.from })
        + event_inputs(MouseEvent { kind: MouseEventKind::Down, button: left, point: params.from })
        + event_inputs(MouseEvent { kind: MouseEventKind::Move, button: left, point: params.to })
        + event_inputs(MouseEvent { kind: MouseEventKind::Up, button: left, point: params.to })
}

fn pressed_flags(button: MouseButton) -> (flags: u32)
    ensures
        flags == down_flags(button),
{
    match button {
        MouseButton::Left => LEFT_DOWN_FLAG | ABSOLUTE_FLAG,
        MouseButton::Right => RIGHT_DOWN_FLAG | ABSOLUTE_FLAG,
        MouseButton::Middle => MIDDLE_DOWN_FLAG | ABSOLUTE_FLAG,
    }
}

fn released_flags(button: MouseButton) -> (flags: u32)
    ensures
        flags == up_flags(button),
{
    match button {
        MouseButton::Left => LEFT_UP_FLAG | ABSOLUTE_FLAG,
        MouseButton::Right => RIGHT_UP_FLAG | ABSOLUTE_FLAG,
        MouseButton::Middle => MIDDLE_UP_FLAG | ABSOLUTE_FLAG,
    }
}

/// The input at `index` of an event; `None` past the last.
pub fn send_mouse<P: Copy>(event: &MouseEvent<P>, index: u64) -> (input: Option<MouseInput<P>>)
    ensures
        input == if index < event_inputs(*event).len() {
            Some(event_inputs(*event)[index as int])
        } else {
            None
        },
{
    let last: u64 = match event.kind {
        MouseEventKind::Click { count } => count as u64 * 2,
        _ => 1,
    };
    if index >= last {
        return None;
    }
    let flags: u32 = match event.kind {
        MouseEventKind::Move => MOVE_FLAG | ABSOLUTE_FLAG,
        MouseEventKind::Down => pressed_flags(event.button),
        MouseEventKind::Up => released_flags(event.button),
        MouseEventKind::Click { count: _ } => if index % 2 == 0 {
            pressed_flags(event.button)
        } else {
            released_flags(event.button)
        },
    };
    Some(MouseInput { flags, point: event.point })
}

impl WindowsAdapter {
    /// The input at `index` of a mouse event; `None` past the last.
    pub fn mouse_event<P: Copy>(&self, event: &MouseEvent<P>, index: u64) -> (r: Result<
        Option<MouseInput<P>>,
        AdapterError,
    >)
        ensures
            r == Ok::<Option<MouseInput<P>>, AdapterError>(
                if index < event_inputs(*event).len() {
                    Some(event_inputs(*event)[index as int])
                } else {
                    None
                },
            ),
    {
        Ok(send_mouse(event, index))
    }

    /// The inputs of a drag.
    pub fn drag<P: Copy>(&self, params: &DragParams<P>) -> (r: Result<
        Vec<MouseInput<P>>,
        AdapterError,
    >)
        ensures
            r matches Ok(inputs) && inputs@ == drag_inputs(*params),
    {
        let mut inputs: Vec<MouseInput<P>> = Vec::new();
        inputs.push(MouseInput { flags: MOVE_FLAG | ABSOLUTE_FLAG, point: params.from });
        inputs.push(MouseInput { flags: pressed_flags(MouseButton::Left), point: params.from });
        inputs.push(MouseInput { flags: MOVE_FLAG | ABSOLUTE_FLAG, point: params.to });
        inputs.push(MouseInput { flags: released_flags(MouseButton::Left), point: params.to });
        assert(inputs@ == drag_inputs(*params));
        Ok(inputs)
    }
}

/// The button that an input presses, where it presses one.
pub open spec fn presses(flags: u32) -> Option<MouseButton> {
    if flags & LEFT_DOWN_FLAG != 0 {
        Some(MouseButton::Left)
    } else if flags & RIGHT_DOWN_FLAG != 0 {
        Some(MouseButton::Right)
    } else if flags & MIDDLE_DOWN_FLAG != 0 {
        Some(MouseButton::Middle)
    } else {
        None
    }
}

/// The button that an input releases, where it releases one.
pub open spec fn releases(flags: u32) -> Option<MouseButton> {
    if flags & LEFT_UP_FLAG != 0 {
        Some(MouseButton::Left)
    } else if flags & RIGHT_UP_FLAG != 0 {
        Some(MouseButton::Right)
    } else if flags & MIDDLE_UP_FLAG != 0 {
        Some(MouseButton::Middle)
    } else {
        None
    }
}

/// What each row of flags presses and releases, and that all of them are absolute.
proof fn lemma_flags()
    ensures
        forall|b: MouseButton|
            #![trigger down_flags(b)]
            presses(down_flags(b)) == Some(b) && releases(down_flags(b)) is None && is_absolute(
                down_flags(b),
            ),
        forall|b: MouseButton|
            #![trigger up_flags(b)]
            releases(up_flags(b)) == Some(b) && presses(up_flags(b)) is None && is_absolute(
                up_flags(b),
            ),
        presses(MOVE_FLAG | ABSOLUTE_FLAG) is None,
        releases(MOVE_FLAG | ABSOLUTE_FLAG) is None,
        is_absolute(MOVE_FLAG | ABSOLUTE_FLAG),
{
    assert({
        &&& 0x1u32 | 0x8000u32 == 0x8001u32
        &&& 0x8001u32 & 0x8000u32 == 0x8000u32
        &&& 0x8001u32 & 0x2u32 == 0x0u32
        &&& 0x8001u32 & 0x4u32 == 0x0u32
        &&& 0x8001u32 & 0x8u32 == 0x0u32
        &&& 0x8001u32 & 0x10u32 == 0x0u32
        &&& 0x8001u32 & 0x20u32 == 0x0u32
        &&& 0x8001u32 & 0x40u32 == 0x0u32
    }) by (bit_vector);
    assert({
        &&& 0x2u32 | 0x8000u32 == 0x8002u32
        &&& 0x8002u32 & 0x8000u32 == 0x8000u32
        &&& 0x8002u32 & 0x2u32 == 0x2u32
        &&& 0x8002u32 & 0x4u32 == 0x0u32
        &&& 0x8002u32 & 0x8u32 == 0x0u32
        &&& 0x8002u32 & 0x10u32 == 0x0u32
        &&& 0x8002u32 & 0x20u32 == 0x0u32
        &&& 0x8002u32 & 0x40u32 == 0x0u32
    }) by (bit_vector);
    assert({
        &&& 0x4u32 | 0x8000u32 == 0x8004u32
        &&& 0x8004u32 & 0x8000u32 == 0x8000u32
        &&& 0x8004u32 & 0x2u32 == 0x0u32
        &&& 0x8004u32 & 0x4u32 == 0x4u32
        &&& 0x8004u32 & 0x8u32 == 0x0u32
        &&& 0x8004u32 & 0x10u32 == 0x0u32
        &&& 0x8004u32 & 0x20u32 == 0x0u32
        &&& 0x8004u32 & 0x40u32 == 0x0u32
    }) by (bit_vector);
    assert({
        &&& 0x8u32 | 0x8000u32 == 0x8008u32
        &&& 0x8008u32 & 0x8000u32 == 0x8000u32
        &&& 0x8008u32 & 0x2u32 == 0x0u32
        &&& 0x8008u32 & 0x4u32 == 0x0u32
        &&& 0x8008u32 & 0x8u32 == 0x8u32
        &&& 0x8008u32 & 0x10u32 == 0x0u32
        &&& 0x8008u32 & 0x20u32 == 0x0u32
        &&& 0x8008u32 & 0x40u32 == 0x0u32
    }) by (bit_vector);
    assert({
        &&& 0x10u32 | 0x8000u32 == 0x8010u32
        &&& 0x8010u32 & 0x8000u32 == 0x8000u32
        &&& 0x8010u32 & 0x2u32 == 0x0u32
        &&& 0x8010u32 & 0x4u32 == 0x0u32
        &&& 0x8010u32 & 0x8u32 == 0x0u32
        &&& 0x8010u32 & 0x10u32 == 0x10u32
        &&& 0x8010u32 & 0x20u32 == 0x0u32
        &&& 0x8010u32 & 0x40u32 == 0x0u32
    }) by (bit_vector);
    assert({
        &&& 0x20u32 | 0x8000u32 == 0x8020u32
        &&& 0x8020u32 & 0x8000u32 == 0x8000u32
        &&& 0x8020u32 & 0x2u32 == 0x0u32
        &&& 0x8020u32 & 0x4u32 == 0x0u32
        &&& 0x8020u32 & 0x8u32 == 0x0u32
        &&& 0x8020u32 & 0x10u32 == 0x0u32
        &&& 0x8020u32 & 0x20u32 == 0x20u32
        &&& 0x8020u32 & 0x40u32 == 0x0u32
    }) by (bit_vector);
    assert({
        &&& 0x40u32 | 0x8000u32 == 0x8040u32
        &&& 0x8040u32 & 0x8000u32 == 0x8000u32
        &&& 0x8040u32 & 0x2u32 == 0x0u32
        &&& 0x8040u32 & 0x4u32 == 0x0u32
        &&& 0x8040u32 & 0x8u32 == 0x0u32
        &&& 0x8040u32 & 0x10u32 == 0x0u32
        &&& 0x8040u32 & 0x20u32 == 0x0u32
        &&& 0x8040u32 & 0x40u32 == 0x40u32
    }) by (bit_vector);
}

/// The coordinates of the input count from the corner of the screen.
pub open spec fn is_absolute(flags: u32) -> bool {
    flags & ABSOLUTE_FLAG == ABSOLUTE_FLAG
}

/// All inputs of an event lie at its point and are absolute.
pub proof fn law_event_inputs_at_point<P>(event: MouseEvent<P>)
    ensures
        forall|i: int|
            0 <= i < event_inputs(event).len() ==> (#[trigger] event_inputs(event)[i]).point
                == event.point && is_absolute(event_inputs(event)[i].flags),
{
    lemma_flags();
}

/// A click is as many pairs as it counts of its button going down and up again.
pub proof fn law_click_pairs<P>(button: MouseButton, count: u32, point: P)
    ensures
        ({
            let inputs = event_inputs(
                MouseEvent { kind: MouseEventKind::Click { count }, button, point },
            );
            &&& inputs.len() == 2 * count
            &&& forall|k: int|
                0 <= k < count ==> presses((#[trigger] inputs[2 * k]).flags) == Some(button)
                    && releases(inputs[2 * k].flags) is None
            &&& forall|k: int|
                0 <= k < count ==> releases((#[trigger] inputs[2 * k + 1]).flags) == Some(button)
                    && presses(inputs[2 * k + 1].flags) is None
        }),
{
    lemma_flags();
}

/// A click is the event that goes down and the event that goes up, over and over.
pub proof fn law_click_is_down_and_up(button: MouseButton, count: u32)
    requires
        count > 0,
    ensures
        input_flags(MouseEventKind::Click { count }, button) == input_flags(
            MouseEventKind::Click { count: (count - 1) as u32 },
            button,
        ) + input_flags(MouseEventKind::Down, button) + input_flags(MouseEventKind::Up, button),
{
    assert(input_flags(MouseEventKind::Click { count }, button) =~= input_flags(
        MouseEventKind::Click { count: (count - 1) as u32 },
        button,
    ) + input_flags(MouseEventKind::Down, button) + input_flags(MouseEventKind::Up, button));
}

/// A drag presses the left button once, at its first point, and releases it once, at its
/// last point, with a move to each point before.
pub proof fn law_drag_holds_the_button<P>(params: DragParams<P>)
    ensures
        ({
            let inputs = drag_inputs(params);
            &&& inputs.len() == 4
            &&& inputs[0].point == params.from && inputs[1].point == params.from
            &&& inputs[2].point == params.to && inputs[3].point == params.to
            &&& presses(inputs[1].flags) == Some(MouseButton::Left)
            &&& releases(inputs[3].flags) == Some(MouseButton::Left)
            &&& inputs[0].flags == MOVE_FLAG | ABSOLUTE_FLAG
            &&& inputs[2].flags == MOVE_FLAG | ABSOLUTE_FLAG
            &&& forall|i: int| 0 <= i < 4 && i != 1 ==> presses((#[trigger] inputs[i]).flags) is None
            &&& forall|i: int|
                0 <= i < 4 && i != 3 ==> releases((#[trigger] inputs[i]).flags) is None
        }),
{
    lemma_flags();
}

/// The flags of each kind of input, bit by bit: one bit for what happens, and the bit that makes
/// the coordinates absolute.
pub proof fn law_flag_values(button: MouseButton)
    ensures
        input_flags(MouseEventKind::Move, button) == seq![0x8001u32],
        input_flags(MouseEventKind::Down, button) == seq![
            match button {
                MouseButton::Left => 0x8002u32,
                MouseButton::Right => 0x8008u32,
                MouseButton::Middle => 0x8020u32,
            },
        ],
        input_flags(MouseEventKind::Up, button) == seq![
            match button {
                MouseButton::Left => 0x8004u32,
                MouseButton::Right => 0x8010u32,
                MouseButton::Middle => 0x8040u32,
            },
        ],
{
    assert(0x1u32 | 0x8000u32 == 0x8001u32 && 0x2u32 | 0x8000u32 == 0x8002u32 && 0x4u32 | 0x8000u32
        == 0x8004u32 && 0x8u32 | 0x8000u32 == 0x8008u32 && 0x10u32 | 0x8000u32 == 0x8010u32
        && 0x20u32 | 0x8000u32 == 0x8020u32 && 0x40u32 | 0x8000u32 == 0x8040u32) by (bit_vector);
}

/// The inputs of an event differ between points in their point only, and a click has two inputs
/// for each time that it counts: a plain press, then a plain release.
pub proof fn law_event_inputs<P>(event: MouseEvent<P>)
    ensures
        event_inputs(event).len() == match event.kind {
            MouseEventKind::Click { count } => 2 * count as int,
            _ => 1int,
        },
        forall|i: int|
            0 <= i < event_inputs(event).len() ==> (#[trigger] event_inputs(event)[i]).point
                == event.point && event_inputs(event)[i].flags == (match event.kind {
                MouseEventKind::Click { count: _ } => if i % 2 == 0 {
                    input_flags(MouseEventKind::Down, event.button)[0]
                } else {
                    input_flags(MouseEventKind::Up, event.button)[0]
                },
                kind => input_flags(kind, event.button)[0],
            }),
{
}

/// A drag is a move and a press where it begins, and a move and a release where it ends, each
/// as the single event would be.
pub proof fn law_drag_is_four_events<P>(params: DragParams<P>)
    ensures
        ({
            let inputs = drag_inputs(params);
            &&& inputs.len() == 4
            &&& inputs[0] == (MouseInput { flags: 0x8001u32, point: params.from })
            &&& inputs[1] == (MouseInput { flags: 0x8002u32, point: params.from })
            &&& inputs[2] == (MouseInput { flags: 0x8001u32, point: params.to })
            &&& inputs[3] == (MouseInput { flags: 0x8004u32, point: params.to })
        }),
{
    law_flag_values(MouseButton::Left);
}

} // verus!
