//! The clipboard, one request to the system at a time.
use crate::adapter::WindowsAdapter;
use crate::error::AdapterError;
use crate::utf16::{decode_utf16_lossy, encode_utf16};
use vstd::prelude::*;

verus! {

/// The clipboard format of UTF-16 text that ends with a zero.
pub const UNICODE_TEXT_FORMAT: u32 = 13;

/// What a run asks for.
#[derive(Debug, Clone, Copy, PartialEq, Eq)]
pub enum ClipboardRequest {
    /// Open the clipboard.
    Open,
    /// Empty it.
    Empty,
    /// Get hold of the text on it.
    Fetch,
    /// The unit at `index` of that text.
    ReadUnit { index: usize },
    /// Copy the units of the run into memory that the system owns.
    Store,
    /// Put that memory on the clipboard.
    Publish,
    /// Close the clipboard.
    Close,
    /// Nothing more.
    Finished,
}

/// What the system replied.
#[derive(Debug, PartialEq, Eq)]
pub enum ClipboardReply {
    Done,
    /// The request failed, and why.
    Failed(String),
    /// The unit that was read.
    Unit(u16),
}

enum ClipboardTask {
    Read,
    Write(Vec<u16>),
    Clear,
}

enum ClipboardPhase {
    Opening,
    Emptying,
    Fetching,
    Reading(Vec<u16>),
    Storing,
    Publishing,
    Closing(Result<Option<String>, AdapterError>),
    Done(Result<Option<String>, AdapterError>),
}

/// A clipboard operation under way.
pub struct ClipboardRun {
    task: ClipboardTask,
    phase: ClipboardPhase,
}

/// What a run is for.
pub enum TaskView {
    Read,
    Write(Seq<u16>),
    Clear,
}

/// The outcome of a run: the text that was read, where one was, or the text of the error.
pub type OutcomeView = Result<Option<Seq<char>>, Seq<char>>;

/// What a run waits for.
pub enum ClipboardPhaseView {
    Opening,
    Emptying,
    Fetching,
    Reading(Seq<u16>),
    Storing,
    Publishing,
    Closing(OutcomeView),
    Done(OutcomeView),
}

/// A run as a mathematical value.
pub struct ClipboardView {
    pub task: TaskView,
    pub phase: ClipboardPhaseView,
}

/// The outcome as a mathematical value.
pub open spec fn outcome_view(r: Result<Option<String>, AdapterError>) -> OutcomeView {
    match r {
        Ok(text) => Ok(crate::node::text_view(text)),
        Err(error) => Err(error@),
    }
}

/// The units that go on the clipboard for a text.
pub open spec fn units_for(text: Seq<char>) -> Seq<u16> {
    crate::utf16::encode(text).push(0)
}

/// The run that carries out a task.
pub open spec fn begin(task: TaskView) -> ClipboardView {
    ClipboardView { task, phase: ClipboardPhaseView::Opening }
}

/// What follows a reply, given what the run is for. A reply to something that was not asked
/// changes nothing.
pub open spec fn advance(run: ClipboardView, reply: ClipboardReply) -> ClipboardView {
    ClipboardView {
        phase: match (run.phase, reply) {
            (ClipboardPhaseView::Opening, ClipboardReply::Failed(reason)) => {
                ClipboardPhaseView::Done(Err(reason@))
            },
            (ClipboardPhaseView::Opening, ClipboardReply::Done) => if run.task is Read {
                ClipboardPhaseView::Fetching
            } else {
                ClipboardPhaseView::Emptying
            },
            (
                ClipboardPhaseView::Emptying,
                ClipboardReply::Done | ClipboardReply::Failed(_),
            ) => if run.task is Write {
                ClipboardPhaseView::Storing
            } else {
                ClipboardPhaseView::Closing(Ok(None))
            },
            (
                ClipboardPhaseView::Fetching | ClipboardPhaseView::Storing
                | ClipboardPhaseView::Publishing,
                ClipboardReply::Failed(reason),
            ) => ClipboardPhaseView::Closing(Err(reason@)),
            (ClipboardPhaseView::Fetching, ClipboardReply::Done) => ClipboardPhaseView::Reading(
                Seq::empty(),
            ),
            (ClipboardPhaseView::Reading(units), ClipboardReply::Unit(unit)) => if unit == 0 {
                ClipboardPhaseView::Closing(Ok(Some(crate::utf16::decode_lossy(units))))
            } else {
                ClipboardPhaseView::Reading(units.push(unit))
            },
            (ClipboardPhaseView::Storing, ClipboardReply::Done) => ClipboardPhaseView::Publishing,
            (ClipboardPhaseView::Publishing, ClipboardReply::Done) => ClipboardPhaseView::Closing(
                Ok(None),
            ),
            (
                ClipboardPhaseView::Closing(outcome),
                ClipboardReply::Done | ClipboardReply::Failed(_),
            ) => ClipboardPhaseView::Done(outcome),
            _ => run.phase,
        },
        ..run
    }
}

/// What the run asks for.
pub open spec fn request_of(run: ClipboardView) -> ClipboardRequest {
    match run.phase {
        ClipboardPhaseView::Opening => ClipboardRequest::Open,
        ClipboardPhaseView::Emptying => ClipboardRequest::Empty,
        ClipboardPhaseView::Fetching => ClipboardRequest::Fetch,
        ClipboardPhaseView::Reading(units) => ClipboardRequest::ReadUnit {
            index: units.len() as usize,
        },
        ClipboardPhaseView::Storing => ClipboardRequest::Store,
        ClipboardPhaseView::Publishing => ClipboardRequest::Publish,
        ClipboardPhaseView::Closing(_) => ClipboardRequest::Close,
        ClipboardPhaseView::Done(_) => ClipboardRequest::Finished,
    }
}

impl ClipboardTask {
    spec fn view(&self) -> TaskView {
        match self {
            ClipboardTask::Read => TaskView::Read,
            ClipboardTask::Write(units) => TaskView::Write(units@),
            ClipboardTask::Clear => TaskView::Clear,
        }
    }
}

impl ClipboardPhase {
    spec fn view(&self) -> ClipboardPhaseView {
        match self {
            ClipboardPhase::Opening => ClipboardPhaseView::Opening,
            ClipboardPhase::Emptying => ClipboardPhaseView::Emptying,
            ClipboardPhase::Fetching => ClipboardPhaseView::Fetching,
            ClipboardPhase::Reading(units) => ClipboardPhaseView::Reading(units@),
            ClipboardPhase::Storing => ClipboardPhaseView::Storing,
            ClipboardPhase::Publishing => ClipboardPhaseView::Publishing,
            ClipboardPhase::Closing(outcome) => ClipboardPhaseView::Closing(outcome_view(*outcome)),
            ClipboardPhase::Done(outcome) => ClipboardPhaseView::Done(outcome_view(*outcome)),
        }
    }
}

impl ClipboardRun {
    /// The run as a mathematical value.
    pub closed spec fn view(&self) -> ClipboardView {
        ClipboardView { task: self.task@, phase: self.phase@ }
    }

    /// What to do next.
    pub fn request(&self) -> (request: ClipboardRequest)
        ensures
            request == request_of(self@),
    {
        match &self.phase {
            ClipboardPhase::Opening => ClipboardRequest::Open,
            ClipboardPhase::Emptying => ClipboardRequest::Empty,
            ClipboardPhase::Fetching => ClipboardRequest::Fetch,
            ClipboardPhase::Reading(units) => ClipboardRequest::ReadUnit { index: units.len() },
            ClipboardPhase::Storing => ClipboardRequest::Store,
            ClipboardPhase::Publishing => ClipboardRequest::Publish,
            ClipboardPhase::Closing(_) => ClipboardRequest::Close,
            ClipboardPhase::Done(_) => ClipboardRequest::Finished,
        }
    }

    /// The units that the run puts on the clipboard, if it puts any.
    pub fn units(&self) -> (units: Option<&Vec<u16>>)
        ensures
            match self@.task {
                TaskView::Write(view) => units matches Some(u) && u@ == view,
                _ => units is None,
            },
    {
        match &self.task {
            ClipboardTask::Write(units) => Some(units),
            _ => None,
        }
    }

    /// Takes the reply to the last request.
    pub fn answer(self, reply: ClipboardReply) -> (run: ClipboardRun)
        ensures
            run@ == advance(self@, reply),
    {
        let ClipboardRun { task, phase } = self;
        let phase = match (phase, reply) {
            (ClipboardPhase::Opening, ClipboardReply::Failed(reason)) => ClipboardPhase::Done(
                Err(AdapterError::not_supported(reason.as_str())),
            ),
            (ClipboardPhase::Opening, ClipboardReply::Done) => match &task {
                ClipboardTask::Read => ClipboardPhase::Fetching,
                _ => ClipboardPhase::Emptying,
            },
            (
                ClipboardPhase::Emptying,
                ClipboardReply::Done | ClipboardReply::Failed(_),
            ) => match &task {
                ClipboardTask::Write(_) => ClipboardPhase::Storing,
                _ => ClipboardPhase::Closing(Ok(None)),
            },
            (
                ClipboardPhase::Fetching | ClipboardPhase::Storing | ClipboardPhase::Publishing,
                ClipboardReply::Failed(reason),
            ) => ClipboardPhase::Closing(Err(AdapterError::not_supported(reason.as_str()))),
            (ClipboardPhase::Fetching, ClipboardReply::Done) => ClipboardPhase::Reading(Vec::new()),
            (ClipboardPhase::Reading(units), ClipboardReply::Unit(unit)) => {
                let mut units = units;
                if unit == 0 {
                    ClipboardPhase::Closing(Ok(Some(decode_utf16_lossy(units.as_slice()))))
                } else {
                    units.push(unit);
                    ClipboardPhase::Reading(units)
                }
            },
            (ClipboardPhase::Storing, ClipboardReply::Done) => ClipboardPhase::Publishing,
            (ClipboardPhase::Publishing, ClipboardReply::Done) => ClipboardPhase::Closing(Ok(None)),
            (
                ClipboardPhase::Closing(outcome),
                ClipboardReply::Done | ClipboardReply::Failed(_),
            ) => ClipboardPhase::Done(outcome),
            (phase, _) => phase,
        };
        ClipboardRun { task, phase }
    }

    /// The outcome, once the run is finished: the text that was read, where one was.
    pub fn outcome(self) -> (outcome: Option<Result<Option<String>, AdapterError>>)
        ensures
            match self@.phase {
                ClipboardPhaseView::Done(view) => outcome matches Some(r) && outcome_view(r)
                    == view,
                _ => outcome is None,
            },
    {
        match self.phase {
            ClipboardPhase::Done(outcome) => Some(outcome),
            _ => None,
        }
    }
}

impl WindowsAdapter {
    /// Begins to read the text on the clipboard.
    pub fn get_clipboard(&self) -> (run: ClipboardRun)
        ensures
            run@ == begin(TaskView::Read),
    {
        ClipboardRun { task: ClipboardTask::Read, phase: ClipboardPhase::Opening }
    }

    /// Begins to put a text on the clipboard.
    pub fn set_clipboard(&self, text: &str) -> (run: ClipboardRun)
        ensures
            run@ == begin(TaskView::Write(units_for(text@))),
    {
        let mut units: Vec<u16> = encode_utf16(text);
        units.push(0);
        ClipboardRun { task: ClipboardTask::Write(units), phase: ClipboardPhase::Opening }
    }

    /// Begins to empty the clipboard.
    pub fn clear_clipboard(&self) -> (run: ClipboardRun)
        ensures
            run@ == begin(TaskView::Clear),
    {
        ClipboardRun { task: ClipboardTask::Clear, phase: ClipboardPhase::Opening }
    }
}

/// The clipboard of the system: whether it is open, and what it holds.
pub struct Board {
    pub open: bool,
    pub content: Option<Seq<u16>>,
}

/// Which requests fail, and why.
pub struct Faults {
    pub open: Option<String>,
    pub empty: Option<String>,
    pub fetch: Option<String>,
    pub store: Option<String>,
    pub publish: Option<String>,
    pub close: Option<String>,
}

/// The reply to a request that fails for a reason, if for any.
pub open spec fn reply_for(fault: Option<String>) -> ClipboardReply {
    match fault {
        Some(reason) => ClipboardReply::Failed(reason),
        None => ClipboardReply::Done,
    }
}

/// What the system replies to the request of a run.
pub open spec fn board_reply(run: ClipboardView, board: Board, faults: Faults) -> ClipboardReply {
    match run.phase {
        ClipboardPhaseView::Opening => reply_for(faults.open),
        ClipboardPhaseView::Emptying => reply_for(faults.empty),
        ClipboardPhaseView::Closing(_) => reply_for(faults.close),
        ClipboardPhaseView::Fetching => reply_for(faults.fetch),
        ClipboardPhaseView::Storing => reply_for(faults.store),
        ClipboardPhaseView::Publishing => reply_for(faults.publish),
        ClipboardPhaseView::Reading(units) => ClipboardReply::Unit(
            board.content->0[units.len() as int],
        ),
        _ => ClipboardReply::Done,
    }
}

/// What the request of a run does to the clipboard.
pub open spec fn board_after(run: ClipboardView, board: Board, faults: Faults) -> Board {
    match run.phase {
        ClipboardPhaseView::Opening => if faults.open is None {
            Board { open: true, ..board }
        } else {
            board
        },
        ClipboardPhaseView::Emptying => if faults.empty is None {
            Board { content: None, ..board }
        } else {
            board
        },
        ClipboardPhaseView::Publishing => if faults.publish is None {
            Board { content: Some(run.task->Write_0), ..board }
        } else {
            board
        },
        ClipboardPhaseView::Closing(_) => if faults.close is None {
            Board { open: false, ..board }
        } else {
            board
        },
        _ => board,
    }
}

/// A run and the clipboard after `steps` requests.
pub open spec fn operated(run: ClipboardView, board: Board, faults: Faults, steps: nat) -> (
    ClipboardView,
    Board,
)
    decreases steps,
{
    if steps == 0 {
        (run, board)
    } else {
        operated(
            advance(run, board_reply(run, board, faults)),
            board_after(run, board, faults),
            faults,
            (steps - 1) as nat,
        )
    }
}

/// The run has the clipboard open.
pub open spec fn holds_open(run: ClipboardView) -> bool {
    !(run.phase is Opening) && !(run.phase is Done)
}

/// As long as closing does not fail itself, the clipboard is open just while the run has it
/// open, so that a run that is finished has closed what it opened, whatever else failed.
pub proof fn law_clipboard_closed(task: TaskView, board: Board, faults: Faults, steps: nat)
    requires
        !board.open,
        faults.close is None,
    ensures
        operated(begin(task), board, faults, steps).1.open == holds_open(
            operated(begin(task), board, faults, steps).0,
        ),
{
    lemma_open(begin(task), board, faults, steps);
}

proof fn lemma_open(run: ClipboardView, board: Board, faults: Faults, steps: nat)
    requires
        board.open == holds_open(run),
        faults.close is None,
    ensures
        operated(run, board, faults, steps).1.open == holds_open(
            operated(run, board, faults, steps).0,
        ),
    decreases steps,
{
    if steps > 0 {
        lemma_open(
            advance(run, board_reply(run, board, faults)),
            board_after(run, board, faults),
            faults,
            (steps - 1) as nat,
        );
    }
}

/// A run that sets the clipboard is finished after five requests at most. It puts the units
/// on the clipboard and reports success, or reports the first failure; the clipboard is then
/// empty, or untouched where it could not be opened or emptied. That it could not be emptied or
/// closed is no failure.
pub proof fn law_set_outcome(units: Seq<u16>, board: Board, faults: Faults)
    ensures
        ({
            let (run, after) = operated(begin(TaskView::Write(units)), board, faults, 5);
            match (faults.open, faults.store, faults.publish) {
                (Some(reason), _, _) => run.phase == ClipboardPhaseView::Done(Err(reason@))
                    && after == board,
                (None, Some(reason), _) | (None, None, Some(reason)) => run.phase
                    == ClipboardPhaseView::Done(Err(reason@)) && after.content == (
                if faults.empty is None {
                    None
                } else {
                    board.content
                }),
                (None, None, None) => run.phase == ClipboardPhaseView::Done(Ok(None))
                    && after.content == Some(units),
            }
        }),
{
    reveal_with_fuel(operated, 6);
}

/// A run that clears the clipboard is finished after three requests at most and leaves it
/// empty, or untouched where it could not be opened. That it could not be emptied or closed is
/// no failure.
pub proof fn law_clear_outcome(board: Board, faults: Faults)
    ensures
        ({
            let (run, after) = operated(begin(TaskView::Clear), board, faults, 3);
            match faults.open {
                Some(reason) => run.phase == ClipboardPhaseView::Done(Err(reason@)) && after
                    == board,
                None => run.phase == ClipboardPhaseView::Done(Ok(None)) && (faults.empty is None
                    ==> after.content is None),
            }
        }),
{
    reveal_with_fuel(operated, 4);
}

/// The number of requests of a run that reads a text: to open the clipboard and get hold of
/// the text, one for each unit up to the zero that ends it, and to close the clipboard.
pub open spec fn read_steps(content: Seq<u16>) -> nat {
    crate::utf16::before_zero(content).len() + 4
}

proof fn lemma_reading(run: ClipboardView, board: Board, faults: Faults)
    requires
        board.content matches Some(content) && content.contains(0),
        ({
            let text = crate::utf16::before_zero(board.content->0);
            run.phase matches ClipboardPhaseView::Reading(units) && units.len() <= text.len()
                && units == text.take(units.len() as int)
        }),
    ensures
        ({
            let text = crate::utf16::before_zero(board.content->0);
            let steps = (text.len() - run.phase->Reading_0.len() + 2) as nat;
            let (done, after) = operated(run, board, faults, steps);
            &&& done.phase == ClipboardPhaseView::Done(Ok(Some(crate::utf16::decode_lossy(text))))
            &&& after.content == board.content
        }),
    decreases crate::utf16::before_zero(board.content->0).len() - run.phase->Reading_0.len(),
{
    let content = board.content->0;
    let text = crate::utf16::before_zero(content);
    let units = run.phase->Reading_0;
    let next = advance(run, board_reply(run, board, faults));
    let n = units.len() as int;
    crate::utf16::lemma_before_zero(content);
    if n == text.len() {
        reveal_with_fuel(operated, 3);
        assert(text.take(n) == text);
    } else {
        assert(text[n] == content[n]);
        assert(text.contains(text[n]));
        assert(units.push(content[n]) == text.take(n + 1));
        lemma_reading(next, board, faults);
    }
}

/// A run that reads the clipboard reports the text up to the first zero on it, or the first
/// failure, and leaves what is on the clipboard as it is.
pub proof fn law_get_outcome(board: Board, faults: Faults)
    requires
        board.content matches Some(content) ==> content.contains(0),
        board.content is None ==> faults.fetch is Some,
    ensures
        faults.open matches Some(reason) ==> operated(begin(TaskView::Read), board, faults, 1) == (
            ClipboardView { task: TaskView::Read, phase: ClipboardPhaseView::Done(Err(reason@)) },
            board,
        ),
        faults.open is None ==> (faults.fetch matches Some(reason) ==> ({
            let (run, after) = operated(begin(TaskView::Read), board, faults, 3);
            run.phase == ClipboardPhaseView::Done(Err(reason@)) && after.content == board.content
        })),
        faults.open is None && faults.fetch is None ==> ({
            let content = board.content->0;
            let (run, after) = operated(begin(TaskView::Read), board, faults, read_steps(content));
            run.phase == ClipboardPhaseView::Done(
                Ok(Some(crate::utf16::decode_lossy(crate::utf16::before_zero(content)))),
            ) && after.content == board.content
        }),
{
    reveal_with_fuel(operated, 4);
    if faults.open is None && faults.fetch is None {
        let content = board.content->0;
        let opened = Board { open: true, ..board };
        let reading = ClipboardView {
            task: TaskView::Read,
            phase: ClipboardPhaseView::Reading(Seq::empty()),
        };
        assert(crate::utf16::before_zero(content).take(0) == Seq::<u16>::empty());
        lemma_reading(reading, opened, faults);
        let steps = read_steps(content);
        assert(operated(begin(TaskView::Read), board, faults, steps) == operated(
            reading,
            opened,
            faults,
            (steps - 2) as nat,
        ));
    }
}

/// A text that was put on the clipboard is what is read from it next, up to its first NUL: all
/// of it where it holds none.
pub proof fn law_set_then_get(text: Seq<char>, board: Board, writing: Faults, reading: Faults)
    requires
        writing.open is None,
        writing.store is None,
        writing.publish is None,
        reading.open is None,
        reading.fetch is None,
    ensures
        ({
            let task = TaskView::Write(units_for(text));
            let (_, written) = operated(begin(task), board, writing, 5);
            let steps = read_steps(units_for(text));
            let (run, _) = operated(begin(TaskView::Read), written, reading, steps);
            run.phase == ClipboardPhaseView::Done(Ok(Some(crate::utf16::before_nul(text))))
        }),
        !text.contains('\0') ==> crate::utf16::before_nul(text) == text,
{
    let units = units_for(text);
    let (_, written) = operated(begin(TaskView::Write(units)), board, writing, 5);
    law_set_outcome(units, board, writing);
    assert(units[units.len() - 1] == 0);
    law_get_outcome(written, reading);
    crate::utf16::law_terminated_text(text, Seq::empty());
    assert(crate::utf16::encode(text) + seq![0u16] + Seq::<u16>::empty() == units);
}

/// What goes on the clipboard for a text is the text in UTF-16 and one zero behind it.
pub proof fn law_units_end_with_zero(text: Seq<char>)
    ensures
        units_for(text).len() == crate::utf16::encode(text).len() + 1,
        units_for(text).last() == 0,
        units_for(text).drop_last() == crate::utf16::encode(text),
{
}

/// What a run asks for in each phase; the units of a text are asked for one after another.
pub proof fn law_requests(run: ClipboardView)
    ensures
        request_of(run) == ClipboardRequest::Open <==> run.phase is Opening,
        request_of(run) == ClipboardRequest::Empty <==> run.phase is Emptying,
        request_of(run) == ClipboardRequest::Fetch <==> run.phase is Fetching,
        request_of(run) is ReadUnit <==> run.phase is Reading,
        run.phase matches ClipboardPhaseView::Reading(units) ==> (units.len() <= usize::MAX ==> (
        request_of(run) matches ClipboardRequest::ReadUnit { index } && index == units.len())),
        request_of(run) == ClipboardRequest::Store <==> run.phase is Storing,
        request_of(run) == ClipboardRequest::Publish <==> run.phase is Publishing,
        request_of(run) == ClipboardRequest::Close <==> run.phase is Closing,
        request_of(run) == ClipboardRequest::Finished <==> run.phase is Done,
{
}

/// No reply changes what a run is for. A reply to something that was not asked changes nothing:
/// a unit counts only while a text is read, nothing else does then, and a run that is finished
/// stays so.
pub proof fn law_stray_replies(run: ClipboardView, reply: ClipboardReply)
    ensures
        advance(run, reply).task == run.task,
        reply is Unit && !(run.phase is Reading) ==> advance(run, reply) == run,
        !(reply is Unit) && run.phase is Reading ==> advance(run, reply) == run,
        run.phase is Done ==> advance(run, reply) == run,
{
}

/// A clipboard that could be opened but not emptied keeps what it holds when it is cleared.
pub proof fn law_clear_keeps_what_stays(board: Board, faults: Faults)
    requires
        faults.open is None,
        faults.empty is Some,
    ensures
        operated(begin(TaskView::Clear), board, faults, 3).1.content == board.content,
{
    reveal_with_fuel(operated, 4);
}

/// An outcome as a mathematical value is the text that was read, if any, or that of the error.
pub proof fn law_outcome_view(text: String, error: AdapterError)
    ensures
        outcome_view(Ok(Some(text))) == Ok::<Option<Seq<char>>, Seq<char>>(Some(text@)),
        outcome_view(Ok(None)) == Ok::<Option<Seq<char>>, Seq<char>>(None),
        outcome_view(Err(error)) == Err::<Option<Seq<char>>, Seq<char>>(error@),
{
}

} // verus!
