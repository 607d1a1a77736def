//! The checklist that the model keeps while it works.
use crate::text::{
    characters, decimal, is_white_space, push_decimal, same_text, trim, trimmed_end, trimmed_start,
    trimmed_text,
};
use vstd::prelude::*;
use vstd::string::StringExecFns;

verus! {

pub const MAX_CHECKLIST_STEPS: usize = 20;

pub const MAX_STEP_CHARS: usize = 200;

#[derive(Clone, Copy, Debug, PartialEq, Eq, Structural)]
pub enum ChecklistStepStatus {
    Pending,
    InProgress,
    Completed,
}

impl ChecklistStepStatus {
    pub open spec fn spelled(self) -> Seq<char> {
        match self {
            ChecklistStepStatus::Pending => "pending"@,
            ChecklistStepStatus::InProgress => "in_progress"@,
            ChecklistStepStatus::Completed => "completed"@,
        }
    }

    fn context_label(self) -> (label: &'static str)
        ensures
            label@ == self.spelled(),
    {
        match self {
            ChecklistStepStatus::Pending => "pending",
            ChecklistStepStatus::InProgress => "in_progress",
            ChecklistStepStatus::Completed => "completed",
        }
    }
}

#[derive(Clone, Debug, PartialEq, Eq)]
pub struct ChecklistStep {
    text: String,
    status: ChecklistStepStatus,
}

pub struct StepView {
    pub text: Seq<char>,
    pub status: ChecklistStepStatus,
}

impl View for ChecklistStep {
    type V = StepView;

    closed spec fn view(&self) -> StepView {
        StepView { text: self.text@, status: self.status }
    }
}

impl ChecklistStep {
    pub fn text(&self) -> (text: &str)
        ensures
            text@ == self@.text,
    {
        self.text.as_str()
    }

    pub fn status(&self) -> (status: ChecklistStepStatus)
        ensures
            status == self@.status,
    {
        self.status
    }
}

pub open spec fn step_views(steps: Seq<ChecklistStep>) -> Seq<StepView> {
    Seq::new(steps.len(), |i: int| steps[i]@)
}

/// Steps in the order in which they are worked on.
#[derive(Clone, Debug, PartialEq, Eq)]
pub struct Checklist {
    steps: Vec<ChecklistStep>,
}

impl View for Checklist {
    type V = Seq<StepView>;

    closed spec fn view(&self) -> Seq<StepView> {
        step_views(self.steps@)
    }
}

impl Default for Checklist {
    fn default() -> (checklist: Self)
        ensures
            checklist@ == Seq::<StepView>::empty(),
    {
        let checklist = Checklist { steps: Vec::new() };
        assert(checklist@ =~= Seq::empty());
        checklist
    }
}

/// Whether there are steps and all of them are done.
pub open spec fn all_done(steps: Seq<StepView>) -> bool {
    steps.len() > 0 && forall|i: int|
        0 <= i < steps.len() ==> (#[trigger] steps[i]).status == ChecklistStepStatus::Completed
}

/// The text with the characters of markup spelled out.
pub open spec fn escaped(text: Seq<char>) -> Seq<char>
    decreases text.len(),
{
    if text.len() == 0 {
        Seq::empty()
    } else {
        escaped(text.drop_last()) + if text.last() == '&' {
            "&amp;"@
        } else if text.last() == '<' {
            "&lt;"@
        } else if text.last() == '>' {
            "&gt;"@
        } else {
            seq![text.last()]
        }
    }
}

pub open spec fn step_line(step: StepView) -> Seq<char> {
    "["@ + step.status.spelled() + "] "@ + escaped(step.text) + "\n"@
}

pub open spec fn step_lines(steps: Seq<StepView>) -> Seq<char>
    decreases steps.len(),
{
    if steps.len() == 0 {
        Seq::empty()
    } else {
        step_lines(steps.drop_last()) + step_line(steps.last())
    }
}

/// What the model is told of its checklist: nothing where it has none, and a reminder where
/// something is left to do.
pub open spec fn dynamic_context(steps: Seq<StepView>) -> Option<Seq<char>> {
    if steps.len() == 0 {
        None
    } else {
        let listed = "<current_checklist>\n"@ + step_lines(steps) + "</current_checklist>"@;
        if all_done(steps) {
            Some(listed)
        } else {
            Some(
                listed
                    + "\n\nReassess this checklist against the latest user request, and replace or clear it if it is no longer appropriate."@,
            )
        }
    }
}

fn push_escaped_markup(rendered: &mut String, text: &str)
    ensures
        final(rendered)@ == old(rendered)@ + escaped(text@),
{
    let characters = characters(text);
    let ghost before = rendered@;
    let mut index: usize = 0;
    proof {
        assert(text@.take(0) =~= Seq::empty());
        assert(before + escaped(text@.take(0)) =~= before);
    }
    while index < characters.len()
        invariant
            characters@ == text@,
            index <= text@.len(),
            rendered@ == before + escaped(text@.take(index as int)),
        decreases characters.len() - index,
    {
        let character = characters[index];
        let ghost here = text@.take(index + 1);
        proof {
            assert(here.drop_last() =~= text@.take(index as int));
            assert(here.last() == character);
        }
        match character {
            '&' => {
                rendered.append("&amp;");
            },
            '<' => {
                rendered.append("&lt;");
            },
            '>' => {
                rendered.append("&gt;");
            },
            _ => {
                rendered.push(character);
            },
        }
        assert(rendered@ =~= before + escaped(here));
        index += 1;
    }
    assert(text@.take(text@.len() as int) =~= text@);
}

impl Checklist {
    pub fn steps(&self) -> (steps: &[ChecklistStep])
        ensures
            step_views(steps@) == self@,
    {
        self.steps.as_slice()
    }

    pub fn is_empty(&self) -> (empty: bool)
        ensures
            empty == (self@.len() == 0),
    {
        self.steps.len() == 0
    }

    pub fn is_fully_completed(&self) -> (completed: bool)
        ensures
            completed == all_done(self@),
    {
        let mut index: usize = 0;
        while index < self.steps.len()
            invariant
                index <= self.steps@.len(),
                forall|i: int|
                    0 <= i < index ==> (#[trigger] self@[i]).status
                        == ChecklistStepStatus::Completed,
            decreases self.steps.len() - index,
        {
            assert(self@[index as int].status == self.steps@[index as int].status);
            if self.steps[index].status != ChecklistStepStatus::Completed {
                return false;
            }
            index += 1;
        }
        self.steps.len() > 0
    }

    pub fn render_dynamic_context(&self) -> (context: Option<String>)
        ensures
            match dynamic_context(self@) {
                None => context is None,
                Some(text) => context is Some && context->0@ == text,
            },
    {
        if self.is_empty() {
            return None;
        }
        let mut lines = String::new();
        let mut index: usize = 0;
        assert(self@.take(0) =~= Seq::empty());
        while index < self.steps.len()
            invariant
                index <= self.steps@.len(),
                lines@ == step_lines(self@.take(index as int)),
            decreases self.steps.len() - index,
        {
            let step = &self.steps[index];
            let ghost before = lines@;
            proof {
                let here = self@.take(index + 1);
                assert(here.drop_last() =~= self@.take(index as int));
                assert(here.last() == step@);
            }
            lines.append("[");
            lines.append(step.status.context_label());
            lines.append("] ");
            push_escaped_markup(&mut lines, step.text.as_str());
            lines.append("\n");
            assert(lines@ =~= before + step_line(step@));
            index += 1;
        }
        assert(self@.take(self@.len() as int) =~= self@);
        let mut rendered = "<current_checklist>\n".to_owned();
        rendered.append(lines.as_str());
        rendered.append("</current_checklist>");
        if !self.is_fully_completed() {
            rendered.append(
                "\n\nReassess this checklist against the latest user request, and replace or clear it if it is no longer appropriate.",
            );
        }
        Some(rendered)
    }
}

/// A step as the model writes it.
#[derive(Debug, PartialEq, Eq)]
pub struct ChecklistStepInput {
    pub step: String,
    pub status: ChecklistStepStatus,
}

/// A checklist as the model writes it.
#[derive(Debug, PartialEq, Eq)]
pub struct ChecklistInput {
    pub checklist: Vec<ChecklistStepInput>,
}

/// The control characters.
pub open spec fn is_control_character(character: char) -> bool {
    character <= '\u{1f}' || '\u{7f}' <= character <= '\u{9f}'
}

pub open spec fn holds_control(text: Seq<char>) -> bool {
    exists|i: int| 0 <= i < text.len() && is_control_character(#[trigger] text[i])
}

/// `subject` with the number of a step in the middle.
pub open spec fn about_step(at: int, problem: Seq<char>) -> Seq<char> {
    "checklist step "@ + decimal((at + 1) as nat) + problem
}

pub open spec fn empty_fault(steps: Seq<ChecklistStepInput>, at: int) -> Option<Seq<char>> {
    if trimmed_text(steps[at].step@).len() == 0 {
        Some(about_step(at, " must not be empty"@))
    } else {
        None
    }
}

pub open spec fn text_fault(steps: Seq<ChecklistStepInput>, at: int) -> Option<Seq<char>> {
    if holds_control(steps[at].step@) {
        Some(about_step(at, " must not contain control characters"@))
    } else if trimmed_text(steps[at].step@).len() > MAX_STEP_CHARS {
        Some(
            about_step(
                at,
                " must contain at most "@ + decimal(MAX_STEP_CHARS as nat) + " characters"@,
            ),
        )
    } else {
        None
    }
}

pub open spec fn duplicate_fault(steps: Seq<StepView>, at: int) -> Option<Seq<char>> {
    if exists|i: int| 0 <= i < at && (#[trigger] steps[i]).text == steps[at].text {
        Some(about_step(at, " duplicates an earlier step"@))
    } else {
        None
    }
}

/// Whether a step before `at` has this status.
pub open spec fn saw(steps: Seq<StepView>, at: int, status: ChecklistStepStatus) -> bool {
    exists|i: int| 0 <= i < at && (#[trigger] steps[i]).status == status
}

pub open spec fn order_fault(steps: Seq<StepView>, at: int) -> Option<Seq<char>> {
    match steps[at].status {
        ChecklistStepStatus::Completed => if saw(steps, at, ChecklistStepStatus::InProgress)
            || saw(steps, at, ChecklistStepStatus::Pending) {
            Some(about_step(at, " has status completed after unfinished steps"@))
        } else {
            None
        },
        ChecklistStepStatus::InProgress => if saw(steps, at, ChecklistStepStatus::Pending) {
            Some(about_step(at, " has status in_progress after pending steps"@))
        } else if saw(steps, at, ChecklistStepStatus::InProgress) {
            Some("checklist must contain at most one in_progress step"@)
        } else {
            None
        },
        ChecklistStepStatus::Pending => None,
    }
}

/// The first fault among the first `count` steps.
pub open spec fn first_fault(
    fault: spec_fn(int) -> Option<Seq<char>>,
    count: nat,
) -> Option<Seq<char>>
    decreases count,
{
    if count == 0 {
        None
    } else {
        match first_fault(fault, (count - 1) as nat) {
            Some(words) => Some(words),
            None => fault(count - 1),
        }
    }
}

/// The steps with their texts trimmed.
pub open spec fn trimmed_steps(steps: Seq<ChecklistStepInput>) -> Seq<StepView> {
    Seq::new(
        steps.len(),
        |i: int| StepView { text: trimmed_text(steps[i].step@), status: steps[i].status },
    )
}

/// What is wrong with a checklist: that it is too long, else the first empty step, else the first
/// step with an unfit text, else the first repetition, else the first step out of order.
pub open spec fn checklist_fault(steps: Seq<ChecklistStepInput>) -> Option<Seq<char>> {
    let trimmed = trimmed_steps(steps);
    if steps.len() > MAX_CHECKLIST_STEPS {
        Some(
            "checklist must contain at most "@ + decimal(MAX_CHECKLIST_STEPS as nat) + " steps"@,
        )
    } else {
        match first_fault(|at: int| empty_fault(steps, at), steps.len()) {
            Some(words) => Some(words),
            None => match first_fault(|at: int| text_fault(steps, at), steps.len()) {
                Some(words) => Some(words),
                None => match first_fault(|at: int| duplicate_fault(trimmed, at), steps.len()) {
                    Some(words) => Some(words),
                    None => first_fault(|at: int| order_fault(trimmed, at), steps.len()),
                },
            },
        }
    }
}

proof fn lemma_first_fault_stays(
    fault: spec_fn(int) -> Option<Seq<char>>,
    early: nat,
    late: nat,
)
    requires
        early <= late,
        first_fault(fault, early) is Some,
    ensures
        first_fault(fault, late) == first_fault(fault, early),
    decreases late,
{
    if early < late {
        lemma_first_fault_stays(fault, early, (late - 1) as nat);
    }
}

proof fn lemma_no_fault(fault: spec_fn(int) -> Option<Seq<char>>, count: nat, at: int)
    requires
        first_fault(fault, count) is None,
        0 <= at < count,
    ensures
        fault(at) is None,
    decreases count,
{
    if at < count - 1 {
        lemma_no_fault(fault, (count - 1) as nat, at);
    }
}

fn step_problem(at: usize, problem: &str) -> (words: String)
    requires
        at < usize::MAX,
    ensures
        words@ == about_step(at as int, problem@),
{
    let mut words = "checklist step ".to_owned();
    push_decimal(&mut words, (at + 1) as u64);
    words.append(problem);
    words
}

fn has_control(text: &str) -> (control: bool)
    ensures
        control == holds_control(text@),
{
    let characters = characters(text);
    let mut index: usize = 0;
    while index < characters.len()
        invariant
            characters@ == text@,
            index <= text@.len(),
            forall|i: int| 0 <= i < index ==> !is_control_character(#[trigger] text@[i]),
        decreases characters.len() - index,
    {
        let character = characters[index];
        if character <= '\u{1f}' || ('\u{7f}' <= character && character <= '\u{9f}') {
            assert(is_control_character(text@[index as int]));
            return true;
        }
        index += 1;
    }
    false
}

/// Whether `outcome` is free of the fault, or is the fault.
pub open spec fn fault_reported(outcome: Result<(), String>, fault: Option<Seq<char>>) -> bool {
    match fault {
        None => outcome is Ok,
        Some(words) => outcome is Err && outcome->Err_0@ == words,
    }
}

fn validate_nonempty(steps: &Vec<ChecklistStepInput>) -> (outcome: Result<(), String>)
    ensures
        fault_reported(
            outcome,
            first_fault(|at: int| empty_fault(steps@, at), steps@.len()),
        ),
{
    let ghost fault = |at: int| empty_fault(steps@, at);
    let mut index: usize = 0;
    while index < steps.len()
        invariant
            index <= steps@.len(),
            fault == (|at: int| empty_fault(steps@, at)),
            first_fault(fault, index as nat) is None,
        decreases steps.len() - index,
    {
        if trim(steps[index].step.as_str()).as_str().is_empty() {
            proof {
                assert(first_fault(fault, (index + 1) as nat) is Some);
                lemma_first_fault_stays(fault, (index + 1) as nat, steps@.len());
            }
            return Err(step_problem(index, " must not be empty"));
        }
        index += 1;
    }
    Ok(())
}

fn validate_texts(steps: &Vec<ChecklistStepInput>) -> (outcome: Result<(), String>)
    ensures
        fault_reported(outcome, first_fault(|at: int| text_fault(steps@, at), steps@.len())),
{
    let ghost fault = |at: int| text_fault(steps@, at);
    let mut index: usize = 0;
    while index < steps.len()
        invariant
            index <= steps@.len(),
            fault == (|at: int| text_fault(steps@, at)),
            first_fault(fault, index as nat) is None,
        decreases steps.len() - index,
    {
        let text = steps[index].step.as_str();
        proof {
            if fault(index as int) is Some {
                assert(first_fault(fault, (index + 1) as nat) is Some);
                lemma_first_fault_stays(fault, (index + 1) as nat, steps@.len());
            }
        }
        if has_control(text) {
            return Err(step_problem(index, " must not contain control characters"));
        }
        if characters(trim(text).as_str()).len() > MAX_STEP_CHARS {
            let mut problem = " must contain at most ".to_owned();
            push_decimal(&mut problem, MAX_STEP_CHARS as u64);
            problem.append(" characters");
            return Err(step_problem(index, problem.as_str()));
        }
        index += 1;
    }
    Ok(())
}

fn has_text(steps: &Vec<ChecklistStep>, count: usize, text: &str) -> (found: bool)
    requires
        count <= steps@.len(),
    ensures
        found <==> exists|i: int|
            0 <= i < count && (#[trigger] step_views(steps@)[i]).text == text@,
{
    let ghost views = step_views(steps@);
    let mut index: usize = 0;
    while index < count
        invariant
            index <= count <= steps@.len(),
            views == step_views(steps@),
            forall|i: int| 0 <= i < index ==> (#[trigger] views[i]).text != text@,
        decreases count - index,
    {
        assert(views[index as int].text == steps@[index as int].text@);
        if same_text(steps[index].text.as_str(), text) {
            return true;
        }
        index += 1;
    }
    false
}

fn validate_unique(steps: &Vec<ChecklistStep>) -> (outcome: Result<(), String>)
    ensures
        fault_reported(
            outcome,
            first_fault(|at: int| duplicate_fault(step_views(steps@), at), steps@.len()),
        ),
{
    let ghost views = step_views(steps@);
    let ghost fault = |at: int| duplicate_fault(views, at);
    assert(fault == (|at: int| duplicate_fault(step_views(steps@), at)));
    let mut index: usize = 0;
    while index < steps.len()
        invariant
            index <= steps@.len(),
            views == step_views(steps@),
            fault == (|at: int| duplicate_fault(views, at)),
            first_fault(fault, index as nat) is None,
        decreases steps.len() - index,
    {
        assert(views[index as int].text == steps@[index as int].text@);
        if has_text(steps, index, steps[index].text.as_str()) {
            proof {
                assert(first_fault(fault, (index + 1) as nat) is Some);
                lemma_first_fault_stays(fault, (index + 1) as nat, steps@.len());
            }
            return Err(step_problem(index, " duplicates an earlier step"));
        }
        index += 1;
    }
    Ok(())
}

fn validate_status_order(steps: &Vec<ChecklistStep>) -> (outcome: Result<(), String>)
    ensures
        fault_reported(
            outcome,
            first_fault(|at: int| order_fault(step_views(steps@), at), steps@.len()),
        ),
{
    let ghost views = step_views(steps@);
    let ghost fault = |at: int| order_fault(views, at);
    assert(fault == (|at: int| order_fault(step_views(steps@), at)));
    let mut saw_in_progress = false;
    let mut saw_pending = false;
    let mut index: usize = 0;
    while index < steps.len()
        invariant
            index <= steps@.len(),
            views == step_views(steps@),
            fault == (|at: int| order_fault(views, at)),
            first_fault(fault, index as nat) is None,
            saw_in_progress == saw(views, index as int, ChecklistStepStatus::InProgress),
            saw_pending == saw(views, index as int, ChecklistStepStatus::Pending),
        decreases steps.len() - index,
    {
        let status = steps[index].status;
        proof {
            assert(views[index as int].status == status);
            if fault(index as int) is Some {
                assert(first_fault(fault, (index + 1) as nat) is Some);
                lemma_first_fault_stays(fault, (index + 1) as nat, steps@.len());
            }
            assert forall|other: ChecklistStepStatus| #[trigger]
                saw(views, index + 1, other) == (saw(views, index as int, other) || status
                    == other) by {
                if saw(views, index + 1, other) {
                    let i = choose|i: int| 0 <= i < index + 1 && (#[trigger] views[i]).status == other;
                    if i < index {
                        assert(views[i].status == other);
                    }
                }
                if saw(views, index as int, other) {
                    let i = choose|i: int| 0 <= i < index && (#[trigger] views[i]).status == other;
                    assert(views[i].status == other);
                }
            }
        }
        match status {
            ChecklistStepStatus::Completed => {
                if saw_in_progress || saw_pending {
                    return Err(
                        step_problem(index, " has status completed after unfinished steps"),
                    );
                }
            },
            ChecklistStepStatus::InProgress => {
                if saw_pending {
                    return Err(
                        step_problem(index, " has status in_progress after pending steps"),
                    );
                }
                if saw_in_progress {
                    return Err(
                        "checklist must contain at most one in_progress step".to_owned(),
                    );
                }
                saw_in_progress = true;
            },
            ChecklistStepStatus::Pending => {
                saw_pending = true;
            },
        }
        index += 1;
    }
    Ok(())
}

fn trim_steps(steps: &Vec<ChecklistStepInput>) -> (trimmed: Vec<ChecklistStep>)
    ensures
        step_views(trimmed@) == trimmed_steps(steps@),
{
    let mut trimmed: Vec<ChecklistStep> = Vec::new();
    let mut index: usize = 0;
    while index < steps.len()
        invariant
            index <= steps@.len(),
            trimmed@.len() == index,
            forall|i: int|
                0 <= i < index ==> (#[trigger] trimmed@[i])@ == trimmed_steps(steps@)[i],
        decreases steps.len() - index,
    {
        trimmed.push(
            ChecklistStep {
                text: trim(steps[index].step.as_str()),
                status: steps[index].status,
            },
        );
        index += 1;
    }
    assert(step_views(trimmed@) =~= trimmed_steps(steps@));
    trimmed
}

/// Accepts a checklist in which nothing is wrong, with the texts of its steps trimmed.
pub fn parse_checklist(input: &ChecklistInput) -> (outcome: Result<Checklist, String>)
    ensures
        match checklist_fault(input.checklist@) {
            None => outcome is Ok && outcome->Ok_0@ == trimmed_steps(input.checklist@),
            Some(words) => outcome is Err && outcome->Err_0@ == words,
        },
{
    if input.checklist.len() > MAX_CHECKLIST_STEPS {
        let mut words = "checklist must contain at most ".to_owned();
        push_decimal(&mut words, MAX_CHECKLIST_STEPS as u64);
        words.append(" steps");
        return Err(words);
    }
    match validate_nonempty(&input.checklist) {
        Err(words) => {
            return Err(words);
        },
        Ok(()) => {},
    }
    match validate_texts(&input.checklist) {
        Err(words) => {
            return Err(words);
        },
        Ok(()) => {},
    }
    let steps = trim_steps(&input.checklist);
    proof {
        assert((|at: int| duplicate_fault(step_views(steps@), at)) == (|at: int|
            duplicate_fault(trimmed_steps(input.checklist@), at)));
        assert((|at: int| order_fault(step_views(steps@), at)) == (|at: int|
            order_fault(trimmed_steps(input.checklist@), at)));
        assert(steps@.len() == step_views(steps@).len());
    }
    match validate_unique(&steps) {
        Err(words) => {
            return Err(words);
        },
        Ok(()) => {},
    }
    match validate_status_order(&steps) {
        Err(words) => {
            return Err(words);
        },
        Ok(()) => {},
    }
    Ok(Checklist { steps })
}

/// Accepts a checklist as the model wrote it, where it could be decoded at all.
pub fn read_checklist(decoded: Result<ChecklistInput, String>) -> (outcome: Result<
    Checklist,
    String,
>)
    ensures
        match decoded {
            Err(detail) => outcome is Err && outcome->Err_0@ == "invalid checklist input: "@
                + detail@,
            Ok(input) => match checklist_fault(input.checklist@) {
                None => outcome is Ok && outcome->Ok_0@ == trimmed_steps(input.checklist@),
                Some(words) => outcome is Err && outcome->Err_0@ == words,
            },
        },
{
    match decoded {
        Err(detail) => Err("invalid checklist input: ".to_owned().concat(detail.as_str())),
        Ok(input) => parse_checklist(&input),
    }
}

/// A checklist that was accepted: not too long, with trimmed, fit and distinct texts, and with
/// finished steps before the current one and that before those to come.
pub open spec fn is_accepted(steps: Seq<StepView>) -> bool {
    &&& steps.len() <= MAX_CHECKLIST_STEPS
    &&& forall|i: int|
        0 <= i < steps.len() ==> 0 < (#[trigger] steps[i]).text.len() <= MAX_STEP_CHARS
            && !holds_control(steps[i].text) && steps[i].text == trimmed_text(steps[i].text)
    &&& forall|i: int, j: int|
        0 <= i < j < steps.len() ==> (#[trigger] steps[i]).text != (#[trigger] steps[j]).text
    &&& forall|i: int, j: int|
        0 <= i < j < steps.len() && (#[trigger] steps[j]).status == ChecklistStepStatus::Completed
            ==> (#[trigger] steps[i]).status == ChecklistStepStatus::Completed
    &&& forall|i: int, j: int|
        0 <= i < j < steps.len() && (#[trigger] steps[j]).status == ChecklistStepStatus::InProgress
            ==> (#[trigger] steps[i]).status == ChecklistStepStatus::Completed
}

proof fn lemma_trimmed_keeps_characters(text: Seq<char>)
    ensures
        !holds_control(text) ==> !holds_control(trimmed_text(text)),
{
    lemma_end_is_prefix(text);
    lemma_start_is_suffix(trimmed_end(text));
    let end = trimmed_end(text);
    let inner = trimmed_text(text);
    if holds_control(inner) {
        let i = choose|i: int| 0 <= i < inner.len() && is_control_character(#[trigger] inner[i]);
        let offset = end.len() - inner.len();
        assert(inner[i] == end[i + offset]);
        assert(end[i + offset] == text[i + offset]);
        assert(is_control_character(text[i + offset]));
    }
}

proof fn lemma_trimmed_once(text: Seq<char>)
    ensures
        trimmed_text(trimmed_text(text)) == trimmed_text(text),
{
    let end = trimmed_end(text);
    let inner = trimmed_text(text);
    lemma_end_is_not_white(text);
    lemma_start_is_suffix(end);
    lemma_start_is_not_white(end);
    if inner.len() > 0 {
        assert(inner[inner.len() - 1] == end[end.len() - 1]);
    }
}

proof fn lemma_end_is_not_white(text: Seq<char>)
    ensures
        trimmed_end(text).len() > 0 ==> !is_white_space(trimmed_end(text).last()),
    decreases text.len(),
{
    if text.len() > 0 && is_white_space(text.last()) {
        lemma_end_is_not_white(text.drop_last());
    }
}

proof fn lemma_start_is_not_white(text: Seq<char>)
    ensures
        trimmed_start(text).len() > 0 ==> !is_white_space(trimmed_start(text)[0]),
    decreases text.len(),
{
    if text.len() > 0 && is_white_space(text[0]) {
        lemma_start_is_not_white(text.skip(1));
    }
}

proof fn lemma_end_is_prefix(text: Seq<char>)
    ensures
        trimmed_end(text).len() <= text.len(),
        forall|i: int| 0 <= i < trimmed_end(text).len() ==> trimmed_end(text)[i] == text[i],
    decreases text.len(),
{
    if text.len() > 0 && is_white_space(text.last()) {
        let rest = text.drop_last();
        lemma_end_is_prefix(rest);
        assert forall|i: int| 0 <= i < trimmed_end(text).len() implies trimmed_end(text)[i]
            == text[i] by {
            assert(trimmed_end(rest)[i] == rest[i]);
        }
    }
}

proof fn lemma_start_is_suffix(text: Seq<char>)
    ensures
        trimmed_start(text).len() <= text.len(),
        forall|i: int|
            0 <= i < trimmed_start(text).len() ==> #[trigger] trimmed_start(text)[i] == text[i
                + text.len() - trimmed_start(text).len()],
    decreases text.len(),
{
    if text.len() > 0 && is_white_space(text[0]) {
        lemma_start_is_suffix(text.skip(1));
    }
}

/// Every checklist that is accepted keeps the promises of a checklist.
pub proof fn accepted_checklists_are_well_formed(steps: Seq<ChecklistStepInput>)
    requires
        checklist_fault(steps) is None,
    ensures
        is_accepted(trimmed_steps(steps)),
{
    let trimmed = trimmed_steps(steps);
    let count = steps.len();
    assert forall|i: int| 0 <= i < trimmed.len() implies 0 < (#[trigger] trimmed[i]).text.len()
        <= MAX_STEP_CHARS && !holds_control(trimmed[i].text) && trimmed[i].text == trimmed_text(
        trimmed[i].text,
    ) by {
        lemma_no_fault(|at: int| empty_fault(steps, at), count, i);
        lemma_no_fault(|at: int| text_fault(steps, at), count, i);
        lemma_trimmed_keeps_characters(steps[i].step@);
        lemma_trimmed_once(steps[i].step@);
    }
    assert forall|i: int, j: int| 0 <= i < j < trimmed.len() implies (#[trigger] trimmed[i]).text
        != (#[trigger] trimmed[j]).text by {
        lemma_no_fault(|at: int| duplicate_fault(trimmed, at), count, j);
    }
    assert forall|i: int, j: int|
        0 <= i < j < trimmed.len() && (#[trigger] trimmed[j]).status
            == ChecklistStepStatus::Completed implies (#[trigger] trimmed[i]).status
        == ChecklistStepStatus::Completed by {
        lemma_no_fault(|at: int| order_fault(trimmed, at), count, j);
        if trimmed[i].status == ChecklistStepStatus::InProgress {
            assert(saw(trimmed, j, ChecklistStepStatus::InProgress));
        }
        if trimmed[i].status == ChecklistStepStatus::Pending {
            assert(saw(trimmed, j, ChecklistStepStatus::Pending));
        }
    }
    assert forall|i: int, j: int|
        0 <= i < j < trimmed.len() && (#[trigger] trimmed[j]).status
            == ChecklistStepStatus::InProgress implies (#[trigger] trimmed[i]).status
        == ChecklistStepStatus::Completed by {
        lemma_no_fault(|at: int| order_fault(trimmed, at), count, j);
        if trimmed[i].status == ChecklistStepStatus::InProgress {
            assert(saw(trimmed, j, ChecklistStepStatus::InProgress));
        }
        if trimmed[i].status == ChecklistStepStatus::Pending {
            assert(saw(trimmed, j, ChecklistStepStatus::Pending));
        }
    }
}

/// No step can open or close markup: what stands of its text in the context holds neither `<`
/// nor `>`.
pub proof fn escaped_text_is_not_markup(text: Seq<char>)
    ensures
        !escaped(text).contains('<'),
        !escaped(text).contains('>'),
    decreases text.len(),
{
    if text.len() > 0 {
        escaped_text_is_not_markup(text.drop_last());
        reveal_strlit("&amp;");
        reveal_strlit("&lt;");
        reveal_strlit("&gt;");
        let before = escaped(text.drop_last());
        let after = escaped(text);
        assert forall|i: int| 0 <= i < after.len() implies after[i] != '<' && after[i] != '>' by {
            if i < before.len() {
                assert(before[i] == after[i]);
                assert(before.contains(before[i]));
            }
        }
    }
}

proof fn lemma_faultless(fault: spec_fn(int) -> Option<Seq<char>>, count: nat)
    requires
        forall|at: int| 0 <= at < count ==> #[trigger] fault(at) is None,
    ensures
        first_fault(fault, count) is None,
    decreases count,
{
    if count > 0 {
        lemma_faultless(fault, (count - 1) as nat);
        assert(fault(count - 1) is None);
    }
}

/// Whether a step of a checklist can be taken: what is left of it without white space at its ends
/// is there and at most 200 characters long, and it holds no control character.
pub open spec fn is_fit(step: ChecklistStepInput) -> bool {
    &&& 0 < trimmed_text(step.step@).len() <= 200
    &&& forall|i: int|
        0 <= i < step.step@.len() ==> !is_control_character(#[trigger] step.step@[i])
}

/// Whether a step can follow another: what is done comes before what is not, one step at most is
/// in progress, and no step comes twice.
pub open spec fn can_follow(earlier: ChecklistStepInput, later: ChecklistStepInput) -> bool {
    &&& trimmed_text(earlier.step@) != trimmed_text(later.step@)
    &&& later.status != ChecklistStepStatus::Pending ==> earlier.status
        == ChecklistStepStatus::Completed
}

/// A checklist is accepted exactly where it has at most twenty steps, each is fit, and each can
/// follow all those before it. What is accepted are its steps in their order, with their statuses,
/// and with their texts trimmed.
pub proof fn sound_checklists_are_accepted(
    input: &ChecklistInput,
    outcome: Result<Checklist, String>,
)
    requires
        call_ensures(parse_checklist, (input,), outcome),
    ensures
        outcome is Ok <==> {
            &&& input.checklist@.len() <= 20
            &&& forall|i: int|
                0 <= i < input.checklist@.len() ==> is_fit(#[trigger] input.checklist@[i])
            &&& forall|i: int, j: int|
                0 <= i < j < input.checklist@.len() ==> can_follow(
                    #[trigger] input.checklist@[i],
                    #[trigger] input.checklist@[j],
                )
        },
        outcome matches Ok(checklist) ==> checklist@.len() == input.checklist@.len() && forall|
            i: int,
        |
            0 <= i < checklist@.len() ==> (#[trigger] checklist@[i]).status
                == input.checklist@[i].status && checklist@[i].text == trimmed_text(
                input.checklist@[i].step@,
            ),
{
    let steps = input.checklist@;
    let trimmed = trimmed_steps(steps);
    let count = steps.len();
    let empty = |at: int| empty_fault(steps, at);
    let unfit = |at: int| text_fault(steps, at);
    let twice = |at: int| duplicate_fault(trimmed, at);
    let order = |at: int| order_fault(trimmed, at);
    if outcome is Ok {
        assert forall|i: int| 0 <= i < count implies is_fit(#[trigger] steps[i]) by {
            lemma_no_fault(empty, count, i);
            lemma_no_fault(unfit, count, i);
            assert(!holds_control(steps[i].step@));
        }
        assert forall|i: int, j: int| 0 <= i < j < count implies can_follow(
            #[trigger] steps[i],
            #[trigger] steps[j],
        ) by {
            lemma_no_fault(twice, count, j);
            lemma_no_fault(order, count, j);
            assert(trimmed[i].text == trimmed_text(steps[i].step@));
            assert(trimmed[i].status == steps[i].status);
            match steps[i].status {
                ChecklistStepStatus::Completed => {},
                ChecklistStepStatus::InProgress => {
                    assert(saw(trimmed, j, ChecklistStepStatus::InProgress));
                },
                ChecklistStepStatus::Pending => {
                    assert(saw(trimmed, j, ChecklistStepStatus::Pending));
                },
            }
        }
    } else if count <= 20 && (forall|i: int| 0 <= i < count ==> is_fit(#[trigger] steps[i])) && (
    forall|i: int, j: int|
        0 <= i < j < count ==> can_follow(#[trigger] steps[i], #[trigger] steps[j])) {
        assert forall|at: int| 0 <= at < count implies #[trigger] empty(at) is None by {
            assert(is_fit(steps[at]));
        }
        lemma_faultless(empty, count);
        assert forall|at: int| 0 <= at < count implies #[trigger] unfit(at) is None by {
            assert(is_fit(steps[at]));
        }
        lemma_faultless(unfit, count);
        assert forall|at: int| 0 <= at < count implies #[trigger] twice(at) is None by {
            assert forall|i: int| 0 <= i < at implies (#[trigger] trimmed[i]).text
                != trimmed[at].text by {
                assert(can_follow(steps[i], steps[at]));
            }
        }
        lemma_faultless(twice, count);
        assert forall|at: int| 0 <= at < count implies #[trigger] order(at) is None by {
            assert forall|i: int|
                0 <= i < at && trimmed[at].status
                    != ChecklistStepStatus::Pending implies (#[trigger] trimmed[i]).status
                == ChecklistStepStatus::Completed by {
                assert(can_follow(steps[i], steps[at]));
            }
        }
        lemma_faultless(order, count);
    }
}

/// A checklist is told step by step, in order, each with its status and its text.
pub proof fn steps_are_told_in_order(steps: Seq<StepView>, step: StepView)
    ensures
        step_lines(Seq::<StepView>::empty()).len() == 0,
        step_lines(steps.push(step)) == step_lines(steps) + ("["@ + (match step.status {
            ChecklistStepStatus::Pending => "pending"@,
            ChecklistStepStatus::InProgress => "in_progress"@,
            ChecklistStepStatus::Completed => "completed"@,
        }) + "] "@ + escaped(step.text) + "\n"@),
{
    assert(steps.push(step).drop_last() =~= steps);
}

/// The model is told of its checklist exactly where it has one, and reminded of it exactly where
/// something is left to do.
pub proof fn unfinished_checklists_are_reminded_of(steps: Seq<StepView>)
    ensures
        dynamic_context(steps) is None <==> steps.len() == 0,
        steps.len() > 0 && (forall|i: int|
            0 <= i < steps.len() ==> (#[trigger] steps[i]).status
                == ChecklistStepStatus::Completed) ==> dynamic_context(steps) == Some(
            "<current_checklist>\n"@ + step_lines(steps) + "</current_checklist>"@,
        ),
        (exists|i: int|
            0 <= i < steps.len() && (#[trigger] steps[i]).status
                != ChecklistStepStatus::Completed) ==> dynamic_context(steps) == Some(
            "<current_checklist>\n"@ + step_lines(steps) + "</current_checklist>"@
                + "\n\nReassess this checklist against the latest user request, and replace or clear it if it is no longer appropriate."@,
        ),
{
}

/// The three characters of markup are spelled out, and every other character stands for itself, in
/// its place.
pub proof fn only_markup_is_escaped(text: Seq<char>, character: char)
    ensures
        escaped(Seq::<char>::empty()).len() == 0,
        escaped(text.push(character)) == escaped(text) + (if character == '&' {
            "&amp;"@
        } else if character == '<' {
            "&lt;"@
        } else if character == '>' {
            "&gt;"@
        } else {
            seq![character]
        }),
{
    assert(text.push(character).drop_last() =~= text);
}

} // verus!
