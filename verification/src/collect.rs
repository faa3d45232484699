//! Collecting the answers: the questions are walked in their stabilized
//! order, each is asked if its dependency holds of the answers given so far,
//! and what the user replies is stored under the question's identifier.
//!
//! Asking is not done here. The collector names the next prompt, the caller
//! shows it and hands the reply back.

use vstd::prelude::*;
use indexmap::IndexMap;
use crate::graph::is_topological_order;
use crate::graph::keys_of;
use crate::graph::pairs_of;
use crate::graph::sort_graph;
use crate::graph::Graph;
use crate::graph::SortError;
use crate::prompt::adjacency;
use crate::prompt::answer_entries;
use crate::prompt::identifiers;
use crate::prompt::is_visible;
use crate::prompt::lookup;
use crate::prompt::no_answers;
use crate::prompt::put_answer;
use crate::prompt::question_named;
use crate::prompt::should_prompt;
use crate::prompt::texts;
use crate::prompt::with_entry;
use crate::prompt::Answer;
use crate::prompt::AnswerView;
use crate::prompt::Question;
use crate::prompt::QuestionType;
use crate::prompt::QuestionView;
use crate::prompt::QuestionsFile;
use crate::report::cycle_report;
use crate::stabilize::stabilized;
use crate::stabilize::stablize_topological_order;

verus! {

/// Why no answers could be collected.
#[derive(Debug)]
pub enum PromptError {
    /// The questions depend on each other in a way that leaves no order to
    /// ask them in.
    Sort { source: SortError<String>, details: String },
    /// A prompt failed or was cancelled.
    Prompt { question: String, cause: String },
}

impl PromptError {
    /// The error for a dependency graph that could not be sorted, with the
    /// sorting error's report as its details.
    pub fn from_sort_error(err: SortError<String>) -> (error: PromptError)
        ensures
            match (err, error) {
                (
                    SortError::CycleDetected(edges),
                    PromptError::Sort { source: SortError::CycleDetected(kept), details },
                ) => kept == edges && details@ == cycle_report(pairs_of(edges@)),
                _ => false,
            },
    {
        let details = err.to_string();
        PromptError::Sort { source: err, details }
    }
}

/// A prompt to be shown: the question's identifier is its text.
#[derive(Debug, PartialEq, Eq)]
pub struct Prompt {
    pub question: String,
    pub kind: QuestionType,
    pub help: String,
    /// The choices of a selection; empty for the other kinds.
    pub choices: Vec<String>,
}

/// What the user gave to a prompt of each kind.
#[derive(Debug)]
pub enum Reply {
    Text(String),
    Paragraph(String),
    Confirm(bool),
    Select(String),
    MultiSelect(Vec<String>),
}

pub struct PromptView {
    pub question: Seq<char>,
    pub kind: QuestionType,
    pub help: Seq<char>,
    pub choices: Seq<Seq<char>>,
}

impl View for Prompt {
    type V = PromptView;

    open spec fn view(&self) -> PromptView {
        PromptView {
            question: self.question@,
            kind: self.kind,
            help: self.help@,
            choices: texts(self.choices@),
        }
    }
}

/// The answer that a reply stands for: text, edited text and a selected
/// choice are stored as text, a confirmation as a flag, several choices as a
/// list.
pub open spec fn answer_of(reply: Reply) -> AnswerView {
    match reply {
        Reply::Text(line) => AnswerView::Text(line@),
        Reply::Paragraph(text) => AnswerView::Text(text@),
        Reply::Confirm(flag) => AnswerView::Flag(flag),
        Reply::Select(choice) => AnswerView::Text(choice@),
        Reply::MultiSelect(choices) => AnswerView::List(texts(choices@)),
    }
}

/// Whether there is anything to show for the question: a selection without
/// choices is never shown.
pub open spec fn can_ask(question: QuestionView) -> bool {
    match question.kind {
        QuestionType::Select => question.choices is Some,
        QuestionType::MultiSelect => question.choices is Some,
        _ => true,
    }
}

/// Whether the question `name` is asked now: it exists, its dependency holds
/// of the answers, and there is something to show.
pub open spec fn is_due(
    questions: Seq<(Seq<char>, QuestionView)>,
    answers: Seq<(Seq<char>, AnswerView)>,
    name: Seq<char>,
) -> bool {
    match lookup(questions, name) {
        Some(question) => is_visible(question.dependency, answers) && can_ask(question),
        None => false,
    }
}

/// The place in `order`, from `from` on, of the next question that is due;
/// a place beyond the last if none is.
pub open spec fn next_due(
    questions: Seq<(Seq<char>, QuestionView)>,
    answers: Seq<(Seq<char>, AnswerView)>,
    order: Seq<Seq<char>>,
    from: int,
) -> int
    decreases order.len() - from,
{
    if from >= order.len() {
        from
    } else if is_due(questions, answers, order[from]) {
        from
    } else {
        next_due(questions, answers, order, from + 1)
    }
}

/// The prompt for a question.
pub open spec fn prompt_for(name: Seq<char>, question: QuestionView) -> PromptView {
    PromptView {
        question: name,
        kind: question.kind,
        help: question.help,
        choices: match question.choices {
            Some(choices) => choices,
            None => Seq::empty(),
        },
    }
}

/// A copy of a list of texts.
pub fn copy_texts(list: &Vec<String>) -> (copy: Vec<String>)
    ensures
        texts(copy@) == texts(list@),
{
    let mut copy: Vec<String> = Vec::new();
    let mut i: usize = 0;
    while i < list.len()
        invariant
            i <= list.len(),
            copy.len() == i,
            forall|j: int| 0 <= j < i ==> #[trigger] copy[j]@ == list[j]@,
        decreases list.len() - i,
    {
        copy.push(list[i].clone());
        i += 1;
    }
    proof {
        assert(texts(copy@) =~= texts(list@));
    }
    copy
}

impl Reply {
    /// The answer to store for a reply.
    pub fn into_answer(self) -> (answer: Answer)
        ensures
            answer@ == answer_of(self),
    {
        match self {
            Reply::Text(line) => Answer::String(line),
            Reply::Paragraph(text) => Answer::String(text),
            Reply::Confirm(flag) => Answer::Bool(flag),
            Reply::Select(choice) => Answer::String(choice),
            Reply::MultiSelect(choices) => Answer::Array(choices),
        }
    }
}

/// The order in which the questions are asked: a topological order of the
/// dependency graph, stabilized so that the questions that depend on nothing
/// come first, as they were written. A dependency on a question that does
/// not exist asks nothing of the order.
pub open spec fn is_question_order(entries: Seq<(Seq<char>, QuestionView)>, order: Seq<Seq<char>>) -> bool {
    exists|sorted: Seq<Seq<char>>|
        {
            &&& #[trigger] is_topological_order(identifiers(entries), adjacency(entries), sorted)
            &&& order == stabilized(identifiers(entries), adjacency(entries), sorted)
        }
}

/// Whether the questions can be ordered at all.
pub open spec fn has_question_order(entries: Seq<(Seq<char>, QuestionView)>) -> bool {
    exists|sorted: Seq<Seq<char>>| #[trigger]
        is_topological_order(identifiers(entries), adjacency(entries), sorted)
}

/// Orders the questions: builds the dependency graph, sorts it and
/// stabilizes the result. A dependency on a question that does not exist
/// binds nothing, so the only failure is a cycle among the questions.
pub fn question_order(file: &QuestionsFile) -> (result: Result<Vec<String>, PromptError>)
    ensures
        match result {
            Ok(order) => is_question_order(file@, texts(order@)),
            Err(PromptError::Sort { source: SortError::CycleDetected(edges), details }) => {
                &&& !has_question_order(file@)
                &&& pairs_of(edges@) == adjacency(file@)
                &&& edges.len() > 0
                &&& details@ == cycle_report(adjacency(file@))
            },
            Err(_) => false,
        },
{
    let nodes = QuestionsFile::question_names(file);
    let edges = QuestionsFile::adjacency_list_from_file(file);
    let graph = Graph { nodes, edges };
    proof {
        assert(graph.node_keys() =~= identifiers(file@));
        assert(graph.edge_keys() == adjacency(file@));
    }
    match sort_graph(&graph) {
        Ok(sorted) => {
            let order = stablize_topological_order(&graph, sorted);
            proof {
                assert(texts(order@) =~= keys_of(order@));
                assert(is_topological_order(
                    identifiers(file@),
                    adjacency(file@),
                    keys_of(sorted@),
                ));
            }
            Ok(order)
        },
        Err(error) => Err(PromptError::from_sort_error(error)),
    }
}

/// The state of a collection: the questions, the order to ask them in, how
/// far the walk has come, and the answers so far.
pub struct AnswerCollector {
    questions: QuestionsFile,
    order: Vec<String>,
    position: usize,
    answers: IndexMap<String, Answer>,
}

impl AnswerCollector {
    pub closed spec fn questions(&self) -> Seq<(Seq<char>, QuestionView)> {
        self.questions@
    }

    pub closed spec fn order(&self) -> Seq<Seq<char>> {
        texts(self.order@)
    }

    /// The place in the order of the question that is looked at next.
    pub closed spec fn position(&self) -> int {
        self.position as int
    }

    pub closed spec fn answers(&self) -> Seq<(Seq<char>, AnswerView)> {
        answer_entries(self.answers)
    }

    /// Starts a collection over the questions of a blueprint. Fails, before
    /// anything is asked, when the questions have no order.
    pub fn new(file: QuestionsFile) -> (result: Result<AnswerCollector, PromptError>)
        ensures
            match result {
                Ok(collector) => {
                    &&& collector.questions() == file@
                    &&& is_question_order(file@, collector.order())
                    &&& collector.position() == 0
                    &&& collector.answers().len() == 0
                },
                Err(PromptError::Sort { source: SortError::CycleDetected(edges), details }) => {
                    &&& !has_question_order(file@)
                    &&& pairs_of(edges@) == adjacency(file@)
                    &&& edges.len() > 0
                    &&& details@ == cycle_report(adjacency(file@))
                },
                Err(_) => false,
            },
    {
        match question_order(&file) {
            Ok(order) => Ok(
                AnswerCollector { questions: file, order, position: 0, answers: no_answers() },
            ),
            Err(error) => Err(error),
        }
    }

    /// Moves on to the next question that is due, skipping those whose
    /// dependency does not hold of the answers so far, and names its prompt.
    /// Returns `None` when no question is left. The answers are not touched.
    pub fn next_prompt(&mut self) -> (prompt: Option<Prompt>)
        ensures
            final(self).questions() == old(self).questions(),
            final(self).order() == old(self).order(),
            final(self).answers() == old(self).answers(),
            final(self).position() == next_due(
                old(self).questions(),
                old(self).answers(),
                old(self).order(),
                old(self).position(),
            ),
            match prompt {
                Some(shown) => {
                    &&& final(self).position() < final(self).order().len()
                    &&& lookup(
                        final(self).questions(),
                        final(self).order()[final(self).position()],
                    ) matches Some(question) && shown@ == prompt_for(
                        final(self).order()[final(self).position()],
                        question,
                    )
                },
                None => final(self).position() >= final(self).order().len(),
            },
    {
        let ghost start = self.position as int;
        let ghost order = texts(self.order@);
        let mut at: usize = self.position;
        let mut found: Option<Prompt> = None;
        while at < self.order.len() && found.is_none()
            invariant
                start <= at,
                order == texts(self.order@),
                self.questions@ == old(self).questions@,
                self.order@ == old(self).order@,
                self.answers == old(self).answers,
                self.position == old(self).position,
                next_due(self.questions@, answer_entries(self.answers), order, start) == next_due(
                    self.questions@,
                    answer_entries(self.answers),
                    order,
                    at as int,
                ),
                match found {
                    Some(shown) => {
                        &&& at < self.order.len()
                        &&& is_due(self.questions@, answer_entries(self.answers), order[at as int])
                        &&& lookup(self.questions@, order[at as int]) matches Some(question)
                            && shown@ == prompt_for(order[at as int], question)
                    },
                    None => true,
                },
            decreases self.order.len() - at + if found is None { 1int } else { 0int },
        {
            let name = &self.order[at];
            proof {
                assert(order[at as int] == name@);
            }
            let mut skip = true;
            match question_named(&self.questions.0, name.as_str()) {
                Some(question) => {
                    if should_prompt(&question.raw_dependency, &self.answers) {
                        found = prompt_of(name, question);
                        skip = found.is_none();
                    }
                },
                None => {},
            }
            if skip {
                at += 1;
            }
        }
        self.position = at;
        found
    }

    /// Whether the question at the current place is due: there is one, its
    /// dependency holds of the answers so far, and it has something to show.
    pub open spec fn awaits_reply(&self) -> bool {
        &&& self.position() < self.order().len()
        &&& is_due(self.questions(), self.answers(), self.order()[self.position()])
    }

    /// Stores the reply under the question that `next_prompt` stopped at,
    /// and steps past that question. A reply that no prompt asked for is
    /// dropped: when no question is left, or the question at the current
    /// place is not due, nothing changes.
    pub fn record(&mut self, reply: Reply)
        ensures
            final(self).questions() == old(self).questions(),
            final(self).order() == old(self).order(),
            old(self).awaits_reply() ==> {
                &&& final(self).position() == old(self).position() + 1
                &&& final(self).answers() == with_entry(
                    old(self).answers(),
                    old(self).order()[old(self).position()],
                    answer_of(reply),
                )
            },
            !old(self).awaits_reply() ==> {
                &&& final(self).position() == old(self).position()
                &&& final(self).answers() == old(self).answers()
            },
    {
        if self.position < self.order.len() {
            let due = match question_named(&self.questions.0, self.order[self.position].as_str()) {
                Some(question) => should_prompt(&question.raw_dependency, &self.answers) && can_show(
                    question,
                ),
                None => false,
            };
            if due {
                let name = self.order[self.position].clone();
                put_answer(&mut self.answers, name, reply.into_answer());
                self.position = self.position + 1;
            }
        }
    }

    /// Ends the collection: the answers, once every question was looked at,
    /// and nothing before that.
    pub fn finish(self) -> (answers: Option<IndexMap<String, Answer>>)
        ensures
            match answers {
                Some(collected) => self.position() >= self.order().len() && answer_entries(
                    collected,
                ) == self.answers(),
                None => self.position() < self.order().len(),
            },
    {
        if self.position >= self.order.len() {
            Some(self.answers)
        } else {
            None
        }
    }

    /// Gives the collection up after the prompt that `next_prompt` named has
    /// failed or was cancelled: the error names that question. The answers
    /// given so far are lost with the collector.
    pub fn fail(self, cause: String) -> (error: PromptError)
        ensures
            match error {
                PromptError::Prompt { question, cause: reported } => {
                    &&& reported@ == cause@
                    &&& question@ == if self.position() < self.order().len() {
                        self.order()[self.position()]
                    } else {
                        Seq::<char>::empty()
                    }
                },
                _ => false,
            },
    {
        let question = if self.position < self.order.len() {
            self.order[self.position].clone()
        } else {
            String::new()
        };
        PromptError::Prompt { question, cause }
    }
}

/// Whether there is anything to show for the question.
fn can_show(question: &Question) -> (r: bool)
    ensures
        r == can_ask(question@),
{
    match question.kind {
        QuestionType::Select => question.choices.is_some(),
        QuestionType::MultiSelect => question.choices.is_some(),
        _ => true,
    }
}

/// The prompt to show for a question, if there is anything to show.
fn prompt_of(name: &String, question: &Question) -> (prompt: Option<Prompt>)
    ensures
        prompt is Some <==> can_ask(question@),
        prompt matches Some(shown) ==> shown@ == prompt_for(name@, question@),
{
    let choices: Vec<String> = match &question.choices {
        Some(choices) => copy_texts(choices),
        None => {
            match question.kind {
                QuestionType::Select => {
                    return None;
                },
                QuestionType::MultiSelect => {
                    return None;
                },
                _ => Vec::new(),
            }
        },
    };
    proof {
        if question.choices is None {
            assert(texts(choices@) =~= Seq::<Seq<char>>::empty());
        }
    }
    Some(Prompt { question: name.clone(), kind: question.kind, help: question.help.clone(), choices })
}

} // verus!
