//! A blueprint's questions, the answers given so far, and the rules that say
//! which question depends on which answer.

use vstd::prelude::*;
use indexmap::IndexMap;
use crate::graph::pairs_of;
use crate::text::lemma_split_at_colon;
use crate::text::parse_bool;
use crate::text::same_text;
use crate::text::spelled_bool;
use crate::text::split_at_colon;
use crate::text::split_once_colon;

verus! {

/// `indexmap`'s map, which keeps its entries in the order of insertion.
#[verifier::external_type_specification]
#[verifier::external_body]
#[verifier::reject_recursive_types(K)]
#[verifier::reject_recursive_types(V)]
#[verifier::reject_recursive_types(S)]
pub struct ExIndexMap<K, V, S>(IndexMap<K, V, S>);

/// What makes a question visible: a predicate is a text `question:expected`.
#[derive(Debug, Clone)]
pub enum Dependency {
    /// A single predicate.
    Condition(String),
    /// Predicates that must all hold.
    And { all: Vec<String> },
    /// Predicates of which one must hold.
    Or { any: Vec<String> },
}

/// The kind of prompt a question is asked with.
#[derive(Debug, Clone, Copy, PartialEq, Eq)]
pub enum QuestionType {
    /// A single line of text.
    Text,
    /// Several lines of text.
    Paragraph,
    /// Yes or no.
    Confirm,
    /// One of the choices.
    Select,
    /// Any number of the choices, at least one.
    MultiSelect,
}

/// One question of a blueprint.
#[derive(Debug, Clone)]
pub struct Question {
    /// The kind of prompt.
    pub kind: QuestionType,
    /// Help text shown with the prompt.
    pub help: String,
    /// The choices of a selection.
    pub choices: Option<Vec<String>>,
    /// When the question is asked; always, if there is none.
    pub raw_dependency: Option<Dependency>,
}

/// A question in its flat form: the kind of prompt is written as a text,
/// and a selection says by a flag whether several choices may be taken.
#[derive(Debug, Clone, PartialEq, Eq)]
pub struct TemplateQuestion {
    /// The kind of prompt, as the author wrote it.
    pub kind: String,
    /// Help text shown with the prompt.
    pub help: String,
    /// The choices of a selection.
    pub choices: Option<Vec<String>>,
    /// Whether several of the choices may be taken.
    pub multiselect: Option<bool>,
}

/// The questions of a blueprint by their identifiers, in the order the
/// author wrote them.
#[derive(Debug)]
pub struct QuestionsFile(pub IndexMap<String, Question>);

/// An answer to a question.
#[derive(Debug, Clone, PartialEq)]
pub enum Answer {
    String(String),
    Bool(bool),
    Array(Vec<String>),
}

/// The characters of each text of a list.
pub open spec fn texts(list: Seq<String>) -> Seq<Seq<char>> {
    Seq::new(list.len(), |i: int| list[i]@)
}

pub enum DependencyView {
    Condition(Seq<char>),
    And(Seq<Seq<char>>),
    Or(Seq<Seq<char>>),
}

pub struct QuestionView {
    pub kind: QuestionType,
    pub help: Seq<char>,
    pub choices: Option<Seq<Seq<char>>>,
    pub dependency: Option<DependencyView>,
}

pub enum AnswerView {
    Text(Seq<char>),
    Flag(bool),
    List(Seq<Seq<char>>),
}

impl View for Dependency {
    type V = DependencyView;

    open spec fn view(&self) -> DependencyView {
        match self {
            Dependency::Condition(predicate) => DependencyView::Condition(predicate@),
            Dependency::And { all } => DependencyView::And(texts(all@)),
            Dependency::Or { any } => DependencyView::Or(texts(any@)),
        }
    }
}

impl View for Question {
    type V = QuestionView;

    open spec fn view(&self) -> QuestionView {
        QuestionView {
            kind: self.kind,
            help: self.help@,
            choices: match self.choices {
                Some(choices) => Some(texts(choices@)),
                None => None,
            },
            dependency: match self.raw_dependency {
                Some(dependency) => Some(dependency@),
                None => None,
            },
        }
    }
}

impl View for Answer {
    type V = AnswerView;

    open spec fn view(&self) -> AnswerView {
        match self {
            Answer::String(text) => AnswerView::Text(text@),
            Answer::Bool(flag) => AnswerView::Flag(*flag),
            Answer::Array(items) => AnswerView::List(texts(items@)),
        }
    }
}

/// The questions that a map holds, in its order.
pub uninterp spec fn question_entries(map: IndexMap<String, Question>) -> Seq<(Seq<char>, QuestionView)>;

/// The answers that a map holds, in its order.
pub uninterp spec fn answer_entries(map: IndexMap<String, Answer>) -> Seq<(Seq<char>, AnswerView)>;

impl View for QuestionsFile {
    type V = Seq<(Seq<char>, QuestionView)>;

    open spec fn view(&self) -> Seq<(Seq<char>, QuestionView)> {
        question_entries(self.0)
    }
}

/// The first place at which `key` stands in `entries`, or their number if it
/// stands nowhere.
pub open spec fn key_index<V>(entries: Seq<(Seq<char>, V)>, key: Seq<char>) -> int
    decreases entries.len(),
{
    if entries.len() == 0 {
        0
    } else if entries[0].0 == key {
        0
    } else {
        1 + key_index(entries.drop_first(), key)
    }
}

/// The value that `entries` hold for `key`.
pub open spec fn lookup<V>(entries: Seq<(Seq<char>, V)>, key: Seq<char>) -> Option<V> {
    let at = key_index(entries, key);
    if at < entries.len() {
        Some(entries[at].1)
    } else {
        None
    }
}

/// The entries after `value` was stored for `key`: in the place of the key,
/// if it has one, and at the end, if it has none.
pub open spec fn with_entry<V>(entries: Seq<(Seq<char>, V)>, key: Seq<char>, value: V) -> Seq<
    (Seq<char>, V),
> {
    let at = key_index(entries, key);
    if at < entries.len() {
        entries.update(at, (key, value))
    } else {
        entries.push((key, value))
    }
}

/// `IndexMap::len`: the number of entries.
#[verifier::external_body]
pub(crate) fn question_count(map: &IndexMap<String, Question>) -> (n: usize)
    ensures
        n == question_entries(*map).len(),
{
    map.len()
}

/// `IndexMap::get_index`: the entry at a place, or `None` beyond the last.
#[verifier::external_body]
pub(crate) fn question_at<'a>(map: &'a IndexMap<String, Question>, index: usize) -> (r: Option<
    (&'a String, &'a Question),
>)
    ensures
        match r {
            Some((key, question)) => index < question_entries(*map).len() && question_entries(
                *map,
            )[index as int] == (key@, question@),
            None => index >= question_entries(*map).len(),
        },
{
    map.get_index(index)
}

/// `IndexMap::get`: the question stored for a key.
#[verifier::external_body]
pub(crate) fn question_named<'a>(map: &'a IndexMap<String, Question>, key: &str) -> (r: Option<
    &'a Question,
>)
    ensures
        match r {
            Some(question) => lookup(question_entries(*map), key@) == Some(question@),
            None => lookup(question_entries(*map), key@) is None,
        },
{
    map.get(key)
}

/// `IndexMap::new`: a map without entries.
#[verifier::external_body]
pub(crate) fn no_answers() -> (map: IndexMap<String, Answer>)
    ensures
        answer_entries(map) == Seq::<(Seq<char>, AnswerView)>::empty(),
{
    IndexMap::new()
}

/// `IndexMap::get`: the answer stored for a key.
#[verifier::external_body]
pub(crate) fn answer_named<'a>(map: &'a IndexMap<String, Answer>, key: &str) -> (r: Option<
    &'a Answer,
>)
    ensures
        match r {
            Some(answer) => lookup(answer_entries(*map), key@) == Some(answer@),
            None => lookup(answer_entries(*map), key@) is None,
        },
{
    map.get(key)
}

/// `IndexMap::insert`: a new key is added last, a known key keeps its place
/// and gets the new value.
#[verifier::external_body]
pub(crate) fn put_answer(map: &mut IndexMap<String, Answer>, key: String, answer: Answer)
    ensures
        answer_entries(*final(map)) == with_entry(answer_entries(*old(map)), key@, answer@),
{
    map.insert(key, answer);
}

/// Whether an answer is the one a predicate expects: a text must equal it, a
/// flag must be what it spells, a list must hold it.
pub open spec fn answer_matches(answer: AnswerView, expected: Seq<char>) -> bool {
    match answer {
        AnswerView::Text(text) => text == expected,
        AnswerView::Flag(flag) => spelled_bool(expected) == Some(flag),
        AnswerView::List(items) => items.contains(expected),
    }
}

/// Whether the predicate `question:expected` holds of the answers: the
/// question has an answer, and it is the expected one. A predicate without a
/// colon holds of nothing.
pub open spec fn predicate_holds(predicate: Seq<char>, answers: Seq<(Seq<char>, AnswerView)>) -> bool {
    match split_at_colon(predicate) {
        Some((question, expected)) => match lookup(answers, question) {
            Some(answer) => answer_matches(answer, expected),
            None => false,
        },
        None => false,
    }
}

/// Every predicate of the list holds of the answers.
pub open spec fn all_predicates_hold(
    predicates: Seq<Seq<char>>,
    answers: Seq<(Seq<char>, AnswerView)>,
) -> bool {
    forall|i: int| 0 <= i < predicates.len() ==> predicate_holds(#[trigger] predicates[i], answers)
}

/// Some predicate of the list holds of the answers.
pub open spec fn some_predicate_holds(
    predicates: Seq<Seq<char>>,
    answers: Seq<(Seq<char>, AnswerView)>,
) -> bool {
    exists|i: int| 0 <= i < predicates.len() && predicate_holds(#[trigger] predicates[i], answers)
}

/// Whether a question with this dependency is asked, given the answers.
pub open spec fn is_visible(
    dependency: Option<DependencyView>,
    answers: Seq<(Seq<char>, AnswerView)>,
) -> bool {
    match dependency {
        None => true,
        Some(DependencyView::Condition(predicate)) => predicate_holds(predicate, answers),
        Some(DependencyView::And(all)) => all_predicates_hold(all, answers),
        Some(DependencyView::Or(any)) => some_predicate_holds(any, answers),
    }
}

/// Whether `items` holds a text equal to `wanted`.
fn holds_text(items: &Vec<String>, wanted: &str) -> (r: bool)
    ensures
        r == texts(items@).contains(wanted@),
{
    let mut i: usize = 0;
    while i < items.len()
        invariant
            i <= items.len(),
            forall|j: int| 0 <= j < i ==> items[j]@ != wanted@,
        decreases items.len() - i,
    {
        if same_text(items[i].as_str(), wanted) {
            proof {
                assert(texts(items@)[i as int] == wanted@);
            }
            return true;
        }
        i += 1;
    }
    proof {
        let all = texts(items@);
        assert forall|j: int| 0 <= j < all.len() implies all[j] != wanted@ by {
            assert(items[j]@ != wanted@);
        }
    }
    false
}

/// Checks whether the predicate `question:expected` is satisfied by the
/// answers collected so far. A question without an answer satisfies nothing.
pub fn check_dependency(dep: &str, answers: &IndexMap<String, Answer>) -> (r: bool)
    ensures
        r == predicate_holds(dep@, answer_entries(*answers)),
{
    match split_once_colon(dep) {
        Some((question, expected)) => {
            proof {
                lemma_split_at_colon(question@, expected@);
            }
            match answer_named(answers, question) {
                Some(answer) => match answer {
                    Answer::String(text) => same_text(text.as_str(), expected),
                    Answer::Bool(flag) => match parse_bool(expected) {
                        Some(spelled) => spelled == *flag,
                        None => false,
                    },
                    Answer::Array(items) => holds_text(items, expected),
                },
                None => false,
            }
        },
        None => false,
    }
}

/// Whether every predicate of the list is satisfied.
fn all_hold(predicates: &Vec<String>, answers: &IndexMap<String, Answer>) -> (r: bool)
    ensures
        r == all_predicates_hold(texts(predicates@), answer_entries(*answers)),
{
    let mut i: usize = 0;
    while i < predicates.len()
        invariant
            i <= predicates.len(),
            forall|j: int|
                0 <= j < i ==> predicate_holds(
                    #[trigger] texts(predicates@)[j],
                    answer_entries(*answers),
                ),
        decreases predicates.len() - i,
    {
        if !check_dependency(predicates[i].as_str(), answers) {
            proof {
                assert(texts(predicates@)[i as int] == predicates[i as int]@);
            }
            return false;
        }
        proof {
            assert(texts(predicates@)[i as int] == predicates[i as int]@);
        }
        i += 1;
    }
    true
}

/// Whether some predicate of the list is satisfied.
fn any_holds(predicates: &Vec<String>, answers: &IndexMap<String, Answer>) -> (r: bool)
    ensures
        r == some_predicate_holds(texts(predicates@), answer_entries(*answers)),
{
    let mut i: usize = 0;
    while i < predicates.len()
        invariant
            i <= predicates.len(),
            forall|j: int|
                0 <= j < i ==> !predicate_holds(
                    #[trigger] texts(predicates@)[j],
                    answer_entries(*answers),
                ),
        decreases predicates.len() - i,
    {
        if check_dependency(predicates[i].as_str(), answers) {
            proof {
                assert(texts(predicates@)[i as int] == predicates[i as int]@);
            }
            return true;
        }
        proof {
            assert(texts(predicates@)[i as int] == predicates[i as int]@);
        }
        i += 1;
    }
    false
}

/// Whether a question with this dependency is to be asked: one without a
/// dependency always, one with a condition when it holds, one with `all` when
/// all of them hold, one with `any` when one of them holds.
pub fn should_prompt(dependency: &Option<Dependency>, answers: &IndexMap<String, Answer>) -> (r: bool)
    ensures
        r == is_visible(
            match dependency {
                Some(d) => Some(d@),
                None => None,
            },
            answer_entries(*answers),
        ),
{
    match dependency {
        None => true,
        Some(Dependency::Condition(predicate)) => check_dependency(predicate.as_str(), answers),
        Some(Dependency::And { all }) => all_hold(all, answers),
        Some(Dependency::Or { any }) => any_holds(any, answers),
    }
}

/// The predicates that a dependency names.
pub open spec fn predicates_of(dependency: Option<DependencyView>) -> Seq<Seq<char>> {
    match dependency {
        None => Seq::empty(),
        Some(DependencyView::Condition(predicate)) => seq![predicate],
        Some(DependencyView::And(all)) => all,
        Some(DependencyView::Or(any)) => any,
    }
}

/// The edges that the predicates of one question give: one edge from the
/// question named before the colon to the question `key`, for each predicate
/// that has a colon.
pub open spec fn edges_to(key: Seq<char>, predicates: Seq<Seq<char>>) -> Seq<(Seq<char>, Seq<char>)>
    decreases predicates.len(),
{
    if predicates.len() == 0 {
        Seq::empty()
    } else {
        let earlier = edges_to(key, predicates.drop_last());
        match split_at_colon(predicates.last()) {
            Some((question, _)) => earlier.push((question, key)),
            None => earlier,
        }
    }
}

/// The edges of the dependency graph: those of each question, one question
/// after the other.
pub open spec fn adjacency(entries: Seq<(Seq<char>, QuestionView)>) -> Seq<(Seq<char>, Seq<char>)>
    decreases entries.len(),
{
    if entries.len() == 0 {
        Seq::empty()
    } else {
        adjacency(entries.drop_last()) + edges_to(
            entries.last().0,
            predicates_of(entries.last().1.dependency),
        )
    }
}

/// The identifiers of the questions, in their order.
pub open spec fn identifiers(entries: Seq<(Seq<char>, QuestionView)>) -> Seq<Seq<char>> {
    Seq::new(entries.len(), |i: int| entries[i].0)
}

/// Appends the edge that one predicate gives, if it gives one.
fn push_edge(edges: &mut Vec<(String, String)>, predicate: &str, key: &String)
    ensures
        pairs_of(final(edges)@) == match split_at_colon(predicate@) {
            Some((question, _)) => pairs_of(old(edges)@).push((question, key@)),
            None => pairs_of(old(edges)@),
        },
{
    let ghost before = pairs_of(edges@);
    match split_once_colon(predicate) {
        Some((question, expected)) => {
            proof {
                lemma_split_at_colon(question@, expected@);
            }
            edges.push((question.to_owned(), key.clone()));
            proof {
                assert(pairs_of(edges@) =~= before.push((question@, key@)));
            }
        },
        None => {},
    }
}

/// Appends the edges that the predicates of one question give.
fn push_edges(edges: &mut Vec<(String, String)>, predicates: &Vec<String>, key: &String)
    ensures
        pairs_of(final(edges)@) == pairs_of(old(edges)@) + edges_to(key@, texts(predicates@)),
{
    let ghost before = pairs_of(edges@);
    let ghost all = texts(predicates@);
    let mut i: usize = 0;
    proof {
        assert(pairs_of(edges@) =~= before + edges_to(key@, all.take(0)));
    }
    while i < predicates.len()
        invariant
            i <= predicates.len(),
            all == texts(predicates@),
            pairs_of(edges@) == before + edges_to(key@, all.take(i as int)),
        decreases predicates.len() - i,
    {
        let ghost so_far = pairs_of(edges@);
        push_edge(edges, predicates[i].as_str(), key);
        proof {
            let next = all.take(i + 1);
            assert(next.drop_last() =~= all.take(i as int));
            assert(next.last() == predicates[i as int]@);
            assert(pairs_of(edges@) =~= before + edges_to(key@, next));
        }
        i += 1;
    }
    proof {
        assert(all.take(all.len() as int) =~= all);
    }
}

impl QuestionsFile {
    /// Builds the edges of the dependency graph: for every predicate
    /// `question:expected` of a question, an edge from that question to the
    /// one that depends on it. Predicates without a colon give no edge, and
    /// nothing checks that the question before the colon exists.
    pub fn adjacency_list_from_file(file: &QuestionsFile) -> (edges: Vec<(String, String)>)
        ensures
            pairs_of(edges@) == adjacency(file@),
    {
        let mut edges: Vec<(String, String)> = Vec::new();
        let count: usize = question_count(&file.0);
        let ghost entries = file@;
        let mut i: usize = 0;
        proof {
            assert(pairs_of(edges@) =~= adjacency(entries.take(0)));
        }
        while i < count
            invariant
                i <= count,
                count == entries.len(),
                entries == file@,
                pairs_of(edges@) == adjacency(entries.take(i as int)),
            decreases count - i,
        {
            let ghost so_far = pairs_of(edges@);
            match question_at(&file.0, i) {
                Some((key, question)) => {
                    match &question.raw_dependency {
                        Some(Dependency::Condition(predicate)) => {
                            push_edge(&mut edges, predicate.as_str(), key);
                            proof {
                                let only = seq![predicate@];
                                assert(only.drop_last() =~= Seq::<Seq<char>>::empty());
                                assert(edges_to(key@, only.drop_last()) =~= Seq::empty());
                                assert(pairs_of(edges@) =~= so_far + edges_to(key@, only));
                            }
                        },
                        Some(Dependency::And { all }) => {
                            push_edges(&mut edges, all, key);
                        },
                        Some(Dependency::Or { any }) => {
                            push_edges(&mut edges, any, key);
                        },
                        None => {
                            proof {
                                assert(pairs_of(edges@) =~= so_far + Seq::empty());
                            }
                        },
                    }
                    proof {
                        let next = entries.take(i + 1);
                        assert(next.drop_last() =~= entries.take(i as int));
                        assert(next.last() == entries[i as int]);
                    }
                },
                None => {},
            }
            i += 1;
        }
        proof {
            assert(entries.take(entries.len() as int) =~= entries);
        }
        edges
    }

    /// The identifiers of the questions, in the order they were written.
    pub fn question_names(file: &QuestionsFile) -> (names: Vec<String>)
        ensures
            texts(names@) == identifiers(file@),
    {
        let mut names: Vec<String> = Vec::new();
        let count: usize = question_count(&file.0);
        let mut i: usize = 0;
        while i < count
            invariant
                i <= count,
                count == file@.len(),
                names.len() == i,
                forall|j: int| 0 <= j < i ==> #[trigger] names[j]@ == file@[j].0,
            decreases count - i,
        {
            match question_at(&file.0, i) {
                Some((key, _)) => {
                    names.push(key.clone());
                },
                None => {},
            }
            i += 1;
        }
        proof {
            assert(texts(names@) =~= identifiers(file@));
        }
        names
    }
}

/// A question that needs all of two predicates is asked exactly when both
/// hold.
pub proof fn lemma_all_of_two(first: Seq<char>, second: Seq<char>, answers: Seq<(Seq<char>, AnswerView)>)
    ensures
        is_visible(Some(DependencyView::And(seq![first, second])), answers) <==> predicate_holds(
            first,
            answers,
        ) && predicate_holds(second, answers),
{
    let both = seq![first, second];
    assert(both[0] == first && both[1] == second);
}

/// A question that needs any of two predicates is asked exactly when one of
/// them holds.
pub proof fn lemma_any_of_two(first: Seq<char>, second: Seq<char>, answers: Seq<(Seq<char>, AnswerView)>)
    ensures
        is_visible(Some(DependencyView::Or(seq![first, second])), answers) <==> predicate_holds(
            first,
            answers,
        ) || predicate_holds(second, answers),
{
    let either = seq![first, second];
    assert(either[0] == first && either[1] == second);
}

/// A predicate on a question that has no answer holds of nothing, whatever
/// it expects.
pub proof fn lemma_unanswered_never_holds(
    question: Seq<char>,
    expected: Seq<char>,
    answers: Seq<(Seq<char>, AnswerView)>,
)
    requires
        !question.contains(':'),
        lookup(answers, question) is None,
    ensures
        !predicate_holds(question + seq![':'] + expected, answers),
{
    lemma_split_at_colon(question, expected);
}

/// The place of a key among the entries is a place of the entries, or
/// their number.
pub proof fn lemma_key_index_bounds<V>(entries: Seq<(Seq<char>, V)>, key: Seq<char>)
    ensures
        0 <= key_index(entries, key) <= entries.len(),
        key_index(entries, key) < entries.len() ==> entries[key_index(entries, key)].0 == key,
    decreases entries.len(),
{
    if entries.len() > 0 && entries[0].0 != key {
        lemma_key_index_bounds(entries.drop_first(), key);
    }
}

/// Storing a value never takes an entry away: every place keeps its key,
/// and the key stored for now has the value stored.
pub proof fn lemma_entries_only_grow<V>(entries: Seq<(Seq<char>, V)>, key: Seq<char>, value: V)
    ensures
        with_entry(entries, key, value).len() >= entries.len(),
        forall|i: int|
            0 <= i < entries.len() ==> (#[trigger] with_entry(entries, key, value)[i]).0
                == entries[i].0,
        exists|i: int|
            0 <= i < with_entry(entries, key, value).len() && #[trigger] with_entry(
                entries,
                key,
                value,
            )[i] == (key, value),
{
    lemma_key_index_bounds(entries, key);
    let at = key_index(entries, key);
    let after = with_entry(entries, key, value);
    assert(after[at] == (key, value));
}

} // verus!
