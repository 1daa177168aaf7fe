//! Actions on an element, one request to the automation interface at a time.
use crate::adapter::{NativeHandle, WindowsAdapter};
use crate::error::AdapterError;
use crate::geometry::{DoubledPoint, WinRect};
use crate::mouse::{MouseButton, MouseEvent, MouseEventKind};
use vstd::prelude::*;

verus! {

/// What to do with an element.
#[derive(Debug, PartialEq, Eq)]
pub enum Action {
    Click,
    DoubleClick,
    RightClick,
    SetValue(String),
    /// Any action that the adapter does not know.
    Other,
}

/// Which action was done.
#[derive(Debug, PartialEq, Eq)]
pub struct ActionResult {
    pub action: String,
}

pub enum ActionView {
    Click,
    DoubleClick,
    RightClick,
    SetValue(Seq<char>),
    Other,
}

impl View for Action {
    type V = ActionView;

    open spec fn view(&self) -> ActionView {
        match self {
            Action::Click => ActionView::Click,
            Action::DoubleClick => ActionView::DoubleClick,
            Action::RightClick => ActionView::RightClick,
            Action::SetValue(value) => ActionView::SetValue(value@),
            Action::Other => ActionView::Other,
        }
    }
}

impl View for ActionResult {
    type V = Seq<char>;

    open spec fn view(&self) -> Seq<char> {
        self.action@
    }
}

impl ActionResult {
    /// The result of the action with this name.
    pub fn new(action: &str) -> (result: ActionResult)
        ensures
            result@ == action@,
    {
        ActionResult { action: action.to_owned() }
    }
}

/// What a run asks for.
#[derive(Debug, PartialEq, Eq)]
pub enum ActionRequest {
    /// Invoke the element, where it can be invoked.
    Invoke,
    /// The rectangle of the element.
    ReadRectangle,
    /// Send this click; the point is given by twice its coordinates.
    Press(MouseEvent<DoubledPoint>),
    /// Set the value of the element to this text, where it has one.
    SetValue(String),
    /// Nothing more.
    Finished,
}

/// What the automation interface replied.
#[derive(Debug, PartialEq, Eq)]
pub enum ActionReply {
    /// Whether the element could be invoked.
    Invoked(bool),
    /// The rectangle, or why it could not be read.
    Rectangle(Result<WinRect, String>),
    /// The click was sent.
    Pressed,
    /// Whether the element has a value to set.
    ValueSet(bool),
}

enum ActionPhase {
    Invoking,
    Locating,
    Pressing(DoubledPoint),
    Setting(String),
    Done(Result<ActionResult, AdapterError>),
}

/// An action under way.
pub struct ActionRun {
    button: MouseButton,
    count: u32,
    phase: ActionPhase,
}

/// What a run waits for.
pub enum ActionPhaseView {
    Invoking,
    Locating,
    Pressing(DoubledPoint),
    Setting(Seq<char>),
    Done(Result<Seq<char>, Seq<char>>),
}

/// A run as a mathematical value: the button and the number of clicks that it would send,
/// and what it waits for.
pub struct ActionRunView {
    pub button: MouseButton,
    pub count: u32,
    pub phase: ActionPhaseView,
}

/// The outcome as a mathematical value: the name of the action, or the text of the error.
pub open spec fn outcome_view(r: Result<ActionResult, AdapterError>) -> Result<
    Seq<char>,
    Seq<char>,
> {
    match r {
        Ok(result) => Ok(result@),
        Err(error) => Err(error@),
    }
}

/// The button that an action clicks with.
pub open spec fn click_button(action: ActionView) -> MouseButton {
    if action is RightClick {
        MouseButton::Right
    } else {
        MouseButton::Left
    }
}

/// How often an action clicks.
pub open spec fn click_count(action: ActionView) -> u32 {
    if action is DoubleClick {
        2
    } else {
        1
    }
}

/// The click of a run at a point.
pub open spec fn click_event(
    button: MouseButton,
    count: u32,
    point: DoubledPoint,
) -> MouseEvent<DoubledPoint> {
    MouseEvent { kind: MouseEventKind::Click { count }, button, point }
}

/// The run of an action on the element with this handle; zero stands for no element.
pub open spec fn begin(handle: usize, action: ActionView) -> ActionRunView {
    ActionRunView {
        button: click_button(action),
        count: click_count(action),
        phase: if handle == 0 {
            ActionPhaseView::Done(Err("execute_action: null handle"@))
        } else {
            match action {
                ActionView::Click => ActionPhaseView::Invoking,
                ActionView::DoubleClick | ActionView::RightClick => ActionPhaseView::Locating,
                ActionView::SetValue(value) => ActionPhaseView::Setting(value),
                ActionView::Other => ActionPhaseView::Done(Err("action not yet implemented"@)),
            }
        },
    }
}

/// The run after a reply. A reply to something that was not asked changes nothing.
pub open spec fn advance(run: ActionRunView, reply: ActionReply) -> ActionRunView {
    ActionRunView {
        phase: match (run.phase, reply) {
            (ActionPhaseView::Invoking, ActionReply::Invoked(done)) => if done {
                ActionPhaseView::Done(Ok("click"@))
            } else {
                ActionPhaseView::Locating
            },
            (ActionPhaseView::Locating, ActionReply::Rectangle(Ok(rect))) => {
                ActionPhaseView::Pressing(rect.spec_center())
            },
            (ActionPhaseView::Locating, ActionReply::Rectangle(Err(reason))) => {
                ActionPhaseView::Done(Err(reason@))
            },
            (ActionPhaseView::Pressing(_), ActionReply::Pressed) => ActionPhaseView::Done(
                Ok("click"@),
            ),
            (ActionPhaseView::Setting(_), ActionReply::ValueSet(done)) => ActionPhaseView::Done(
                if done {
                    Ok("set-value"@)
                } else {
                    Err("set_value: ValuePattern not supported"@)
                },
            ),
            _ => run.phase,
        },
        ..run
    }
}

impl ActionPhase {
    spec fn view(&self) -> ActionPhaseView {
        match self {
            ActionPhase::Invoking => ActionPhaseView::Invoking,
            ActionPhase::Locating => ActionPhaseView::Locating,
            ActionPhase::Pressing(point) => ActionPhaseView::Pressing(*point),
            ActionPhase::Setting(value) => ActionPhaseView::Setting(value@),
            ActionPhase::Done(outcome) => ActionPhaseView::Done(outcome_view(*outcome)),
        }
    }
}

impl ActionRun {
    /// The run as a mathematical value.
    pub closed spec fn view(&self) -> ActionRunView {
        ActionRunView { button: self.button, count: self.count, phase: self.phase@ }
    }

    /// Begins an action on the element with this handle; zero stands for no element.
    fn new(handle: usize, action: Action) -> (run: ActionRun)
        ensures
            run@ == begin(handle, action@),
    {
        let button = match &action {
            Action::RightClick => MouseButton::Right,
            _ => MouseButton::Left,
        };
        let count: u32 = match &action {
            Action::DoubleClick => 2,
            _ => 1,
        };
        let phase = if handle == 0 {
            ActionPhase::Done(Err(AdapterError::not_supported("execute_action: null handle")))
        } else {
            match action {
                Action::Click => ActionPhase::Invoking,
                Action::DoubleClick | Action::RightClick => ActionPhase::Locating,
                Action::SetValue(value) => ActionPhase::Setting(value),
                Action::Other => ActionPhase::Done(
                    Err(AdapterError::not_supported("action not yet implemented")),
                ),
            }
        };
        ActionRun { button, count, phase }
    }

    /// What to do next.
    pub fn request(&self) -> (request: ActionRequest)
        ensures
            match self@.phase {
                ActionPhaseView::Invoking => request is Invoke,
                ActionPhaseView::Locating => request is ReadRectangle,
                ActionPhaseView::Pressing(point) => request == ActionRequest::Press(
                    click_event(self@.button, self@.count, point),
                ),
                ActionPhaseView::Setting(value) => request matches ActionRequest::SetValue(text)
                    && text@ == value,
                ActionPhaseView::Done(_) => request is Finished,
            },
    {
        match &self.phase {
            ActionPhase::Invoking => ActionRequest::Invoke,
            ActionPhase::Locating => ActionRequest::ReadRectangle,
            ActionPhase::Pressing(point) => ActionRequest::Press(
                MouseEvent {
                    kind: MouseEventKind::Click { count: self.count },
                    button: self.button,
                    point: *point,
                },
            ),
            ActionPhase::Setting(value) => ActionRequest::SetValue(value.clone()),
            ActionPhase::Done(_) => ActionRequest::Finished,
        }
    }

    /// Takes the reply to the last request.
    pub fn answer(self, reply: ActionReply) -> (run: ActionRun)
        requires
            self@.phase is Locating ==> (reply matches ActionReply::Rectangle(Ok(rect))
                ==> rect.centred()),
        ensures
            run@ == advance(self@, reply),
    {
        let phase = match (self.phase, reply) {
            (ActionPhase::Invoking, ActionReply::Invoked(done)) => if done {
                ActionPhase::Done(Ok(ActionResult::new("click")))
            } else {
                ActionPhase::Locating
            },
            (ActionPhase::Locating, ActionReply::Rectangle(Ok(rect))) => ActionPhase::Pressing(
                rect.center(),
            ),
            (ActionPhase::Locating, ActionReply::Rectangle(Err(reason))) => ActionPhase::Done(
                Err(AdapterError::not_supported(reason.as_str())),
            ),
            (ActionPhase::Pressing(_), ActionReply::Pressed) => ActionPhase::Done(
                Ok(ActionResult::new("click")),
            ),
            (ActionPhase::Setting(_), ActionReply::ValueSet(done)) => if done {
                ActionPhase::Done(Ok(ActionResult::new("set-value")))
            } else {
                ActionPhase::Done(
                    Err(AdapterError::not_supported("set_value: ValuePattern not supported")),
                )
            },
            (phase, _) => phase,
        };
        ActionRun { button: self.button, count: self.count, phase }
    }

    /// The outcome, once the run is finished.
    pub fn outcome(self) -> (outcome: Option<Result<ActionResult, AdapterError>>)
        ensures
            match self@.phase {
                ActionPhaseView::Done(view) => outcome matches Some(r) && outcome_view(r) == view,
                _ => outcome is None,
            },
    {
        match self.phase {
            ActionPhase::Done(outcome) => Some(outcome),
            _ => None,
        }
    }
}

impl WindowsAdapter {
    /// Begins an action on an element.
    pub fn execute_action(&self, handle: &NativeHandle, action: Action) -> (run: ActionRun)
        ensures
            run@ == begin(handle.raw, action@),
    {
        ActionRun::new(handle.raw, action)
    }
}

/// What can be done with an element.
pub struct ElementModel {
    pub invokable: bool,
    pub rectangle: Result<WinRect, String>,
    pub has_value: bool,
}

/// What is done to an element, or in its place to the mouse.
pub enum Effect {
    Invoked,
    Pressed(MouseEvent<DoubledPoint>),
    ValueSet(Seq<char>),
}

/// What an element replies to the request of a run.
pub open spec fn element_reply(run: ActionRunView, element: ElementModel) -> ActionReply {
    match run.phase {
        ActionPhaseView::Invoking => ActionReply::Invoked(element.invokable),
        ActionPhaseView::Locating => ActionReply::Rectangle(element.rectangle),
        ActionPhaseView::Setting(_) => ActionReply::ValueSet(element.has_value),
        _ => ActionReply::Pressed,
    }
}

/// What the request of a run does to an element.
pub open spec fn element_effect(run: ActionRunView, element: ElementModel) -> Seq<Effect> {
    match run.phase {
        ActionPhaseView::Invoking => if element.invokable {
            seq![Effect::Invoked]
        } else {
            Seq::empty()
        },
        ActionPhaseView::Pressing(point) => seq![
            Effect::Pressed(click_event(run.button, run.count, point)),
        ],
        ActionPhaseView::Setting(value) => if element.has_value {
            seq![Effect::ValueSet(value)]
        } else {
            Seq::empty()
        },
        _ => Seq::empty(),
    }
}

/// What a run does to an element in `steps` requests, and how it then stands.
pub open spec fn performed(run: ActionRunView, element: ElementModel, steps: nat) -> (
    Seq<Effect>,
    ActionRunView,
)
    decreases steps,
{
    if steps == 0 {
        (Seq::empty(), run)
    } else {
        let later = performed(
            advance(run, element_reply(run, element)),
            element,
            (steps - 1) as nat,
        );
        (element_effect(run, element) + later.0, later.1)
    }
}

/// What an action is to do to an element and what it is to report.
pub open spec fn expected(handle: usize, action: ActionView, element: ElementModel) -> (
    Seq<Effect>,
    Result<Seq<char>, Seq<char>>,
) {
    if handle == 0 {
        (Seq::empty(), Err("execute_action: null handle"@))
    } else if action is Other {
        (Seq::empty(), Err("action not yet implemented"@))
    } else if let ActionView::SetValue(value) = action {
        if element.has_value {
            (seq![Effect::ValueSet(value)], Ok("set-value"@))
        } else {
            (Seq::empty(), Err("set_value: ValuePattern not supported"@))
        }
    } else if action is Click && element.invokable {
        (seq![Effect::Invoked], Ok("click"@))
    } else {
        match element.rectangle {
            Ok(rect) => (
                seq![
                    Effect::Pressed(
                        click_event(
                            click_button(action),
                            click_count(action),
                            rect.spec_center(),
                        ),
                    ),
                ],
                Ok("click"@),
            ),
            Err(reason) => (Seq::empty(), Err(reason@)),
        }
    }
}

/// A run is finished after three requests at most, has then done what the action is to do to
/// the element and nothing else, and reports it: a plain click invokes the element where that
/// is possible, and every other click, or one that cannot, goes to the centre of the element.
pub proof fn law_action_outcome(handle: usize, action: ActionView, element: ElementModel)
    ensures
        performed(begin(handle, action), element, 3).0 == expected(handle, action, element).0,
        performed(begin(handle, action), element, 3).1.phase == ActionPhaseView::Done(
            expected(handle, action, element).1,
        ),
{
    reveal_with_fuel(performed, 4);
    let done = performed(begin(handle, action), element, 3).0;
    assert(done =~= expected(handle, action, element).0);
}

/// A right click is made with the right button and every other click with the left one, a
/// double click is two clicks and every other one, and no reply changes that.
pub proof fn law_click_parameters(handle: usize, action: ActionView, reply: ActionReply)
    ensures
        action is RightClick ==> begin(handle, action).button == MouseButton::Right,
        !(action is RightClick) ==> begin(handle, action).button == MouseButton::Left,
        action is DoubleClick ==> begin(handle, action).count == 2,
        !(action is DoubleClick) ==> begin(handle, action).count == 1,
        forall|run: ActionRunView|
            (#[trigger] advance(run, reply)).button == run.button && advance(run, reply).count
                == run.count,
{
}

/// The click of a run is a click with its button, as often as it counts, at the point.
pub proof fn law_click_event(button: MouseButton, count: u32, point: DoubledPoint)
    ensures
        click_event(button, count, point).kind == (MouseEventKind::Click { count }),
        click_event(button, count, point).button == button,
        click_event(button, count, point).point == point,
{
}

/// A click that does not invoke the element presses once or, if double, twice, in the middle
/// between the edges of the element, and does nothing else.
pub proof fn law_click_hits_the_middle(handle: usize, action: ActionView, element: ElementModel)
    requires
        handle != 0,
        action is DoubleClick || action is RightClick || (action is Click && !element.invokable),
        element.rectangle matches Ok(rect) && rect.centred(),
    ensures
        ({
            let done = performed(begin(handle, action), element, 3).0;
            let rect = element.rectangle->Ok_0;
            &&& done.len() == 1
            &&& done[0] matches Effect::Pressed(event)
            &&& event.kind == (MouseEventKind::Click {
                count: if action is DoubleClick {
                    2
                } else {
                    1
                },
            })
            &&& event.button == if action is RightClick {
                MouseButton::Right
            } else {
                MouseButton::Left
            }
            &&& event.point.x - 2 * rect.left == 2 * rect.right - event.point.x
            &&& event.point.y - 2 * rect.top == 2 * rect.bottom - event.point.y
        }),
{
    law_action_outcome(handle, action, element);
}

/// A reply to something that was not asked changes nothing, and a run that is finished stays so.
pub proof fn law_stray_replies(run: ActionRunView, reply: ActionReply)
    requires
        !(run.phase is Invoking && reply is Invoked),
        !(run.phase is Locating && reply is Rectangle),
        !(run.phase is Pressing && reply is Pressed),
        !(run.phase is Setting && reply is ValueSet),
    ensures
        advance(run, reply) == run,
{
}

/// An action as a mathematical value is the same action, with the same text.
pub proof fn law_action_view(action: Action)
    ensures
        action@ is Click <==> action is Click,
        action@ is DoubleClick <==> action is DoubleClick,
        action@ is RightClick <==> action is RightClick,
        action@ is Other <==> action is Other,
        action matches Action::SetValue(text) ==> action@ == ActionView::SetValue(text@),
{
}

/// An outcome as a mathematical value is the name of the action or the text of the error.
pub proof fn law_outcome_view(result: ActionResult, error: AdapterError)
    ensures
        outcome_view(Ok(result)) == Ok::<Seq<char>, Seq<char>>(result.action@),
        outcome_view(Err(error)) == Err::<Seq<char>, Seq<char>>(error@),
{
}

} // verus!
