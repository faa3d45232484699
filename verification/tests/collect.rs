use indexmap::IndexMap;
use kopye::collect::question_order;
use kopye::collect::AnswerCollector;
use kopye::collect::Prompt;
use kopye::collect::PromptError;
use kopye::collect::Reply;
use kopye::graph::SortError;
use kopye::prompt::Answer;
use kopye::prompt::Dependency;
use kopye::prompt::Question;
use kopye::prompt::QuestionType;
use kopye::prompt::QuestionsFile;

fn question(kind: QuestionType, choices: Option<Vec<&str>>, depends_on: Option<&str>) -> Question {
    Question {
        kind,
        help: String::from("some help"),
        choices: choices.map(|list| list.iter().map(|s| s.to_string()).collect()),
        raw_dependency: depends_on.map(|d| Dependency::Condition(d.to_string())),
    }
}

fn database_questions() -> QuestionsFile {
    let mut questions = IndexMap::new();
    questions.insert(
        "db".to_string(),
        question(QuestionType::Select, Some(vec!["postgres", "sqlite"]), Some("use_db:true")),
    );
    questions.insert("name".to_string(), question(QuestionType::Text, None, None));
    questions.insert("use_db".to_string(), question(QuestionType::Confirm, None, None));
    QuestionsFile(questions)
}

#[test]
fn questions_without_dependency_are_ordered_first() {
    let order = question_order(&database_questions()).unwrap();
    assert_eq!(order, vec!["name".to_string(), "use_db".to_string(), "db".to_string()]);
}

#[test]
fn a_hidden_question_is_skipped_and_gets_no_answer() {
    let mut collector = AnswerCollector::new(database_questions()).unwrap();
    let first = collector.next_prompt().unwrap();
    assert_eq!(
        first,
        Prompt {
            question: "name".to_string(),
            kind: QuestionType::Text,
            help: "some help".to_string(),
            choices: vec![],
        }
    );
    collector.record(Reply::Text("demo".to_string()));
    let second = collector.next_prompt().unwrap();
    assert_eq!(second.question, "use_db");
    assert_eq!(second.kind, QuestionType::Confirm);
    collector.record(Reply::Confirm(false));
    assert!(collector.next_prompt().is_none());
    let answers = collector.finish().unwrap();
    let keys: Vec<&String> = answers.keys().collect();
    assert_eq!(keys, vec!["name", "use_db"]);
    assert_eq!(answers.get("name"), Some(&Answer::String("demo".to_string())));
    assert_eq!(answers.get("use_db"), Some(&Answer::Bool(false)));
    assert_eq!(answers.get("db"), None);
}

#[test]
fn a_visible_question_is_asked_with_its_choices() {
    let mut collector = AnswerCollector::new(database_questions()).unwrap();
    collector.next_prompt().unwrap();
    collector.record(Reply::Text("demo".to_string()));
    collector.next_prompt().unwrap();
    collector.record(Reply::Confirm(true));
    let third = collector.next_prompt().unwrap();
    assert_eq!(third.question, "db");
    assert_eq!(third.kind, QuestionType::Select);
    assert_eq!(third.choices, vec!["postgres".to_string(), "sqlite".to_string()]);
    collector.record(Reply::Select("sqlite".to_string()));
    assert!(collector.next_prompt().is_none());
    let answers = collector.finish().unwrap();
    assert_eq!(answers.len(), 3);
    assert_eq!(answers.get("db"), Some(&Answer::String("sqlite".to_string())));
}

#[test]
fn asking_again_without_a_reply_names_the_same_prompt() {
    let mut collector = AnswerCollector::new(database_questions()).unwrap();
    let once = collector.next_prompt().unwrap();
    let twice = collector.next_prompt().unwrap();
    assert_eq!(once, twice);
}

#[test]
fn answers_are_not_handed_out_before_the_end() {
    let mut collector = AnswerCollector::new(database_questions()).unwrap();
    collector.next_prompt().unwrap();
    assert!(collector.finish().is_none());
}

#[test]
fn a_selection_without_choices_is_never_asked() {
    let mut questions = IndexMap::new();
    questions.insert("pick".to_string(), question(QuestionType::Select, None, None));
    questions.insert("many".to_string(), question(QuestionType::MultiSelect, None, None));
    questions.insert("text".to_string(), question(QuestionType::Paragraph, None, None));
    let mut collector = AnswerCollector::new(QuestionsFile(questions)).unwrap();
    let prompt = collector.next_prompt().unwrap();
    assert_eq!(prompt.question, "text");
    assert_eq!(prompt.kind, QuestionType::Paragraph);
    collector.record(Reply::Paragraph("long".to_string()));
    assert!(collector.next_prompt().is_none());
    let answers = collector.finish().unwrap();
    assert_eq!(answers.len(), 1);
    assert_eq!(answers.get("text"), Some(&Answer::String("long".to_string())));
}

#[test]
fn several_choices_are_stored_as_a_list() {
    let mut questions = IndexMap::new();
    questions.insert(
        "features".to_string(),
        question(QuestionType::MultiSelect, Some(vec!["ci", "docs", "lint"]), None),
    );
    questions.insert("docs_dir".to_string(), question(QuestionType::Text, None, Some("features:docs")));
    let mut collector = AnswerCollector::new(QuestionsFile(questions)).unwrap();
    let prompt = collector.next_prompt().unwrap();
    assert_eq!(prompt.kind, QuestionType::MultiSelect);
    collector.record(Reply::MultiSelect(vec!["ci".to_string(), "docs".to_string()]));
    let next = collector.next_prompt().unwrap();
    assert_eq!(next.question, "docs_dir");
    collector.record(Reply::Text("guide".to_string()));
    let answers = collector.finish().unwrap();
    assert_eq!(
        answers.get("features"),
        Some(&Answer::Array(vec!["ci".to_string(), "docs".to_string()]))
    );
}

#[test]
fn questions_in_a_cycle_are_never_asked() {
    let mut questions = IndexMap::new();
    questions.insert("a".to_string(), question(QuestionType::Confirm, None, Some("c:true")));
    questions.insert("b".to_string(), question(QuestionType::Confirm, None, Some("a:true")));
    questions.insert("c".to_string(), question(QuestionType::Confirm, None, Some("b:true")));
    match AnswerCollector::new(QuestionsFile(questions)) {
        Err(PromptError::Sort { source: SortError::CycleDetected(edges), details }) => {
            assert_eq!(
                edges,
                vec![
                    ("c".to_string(), "a".to_string()),
                    ("a".to_string(), "b".to_string()),
                    ("b".to_string(), "c".to_string()),
                ]
            );
            assert!(details.starts_with("Cycle detected in the following DAG:\n"));
        }
        _ => panic!("a cycle has no order"),
    }
}

#[test]
fn a_failed_prompt_names_its_question() {
    let mut collector = AnswerCollector::new(database_questions()).unwrap();
    collector.next_prompt().unwrap();
    collector.record(Reply::Text("demo".to_string()));
    collector.next_prompt().unwrap();
    match collector.fail("Operation was canceled by the user".to_string()) {
        PromptError::Prompt { question, cause } => {
            assert_eq!(question, "use_db");
            assert_eq!(cause, "Operation was canceled by the user");
        }
        _ => panic!("a failed prompt is a prompt error"),
    }
}

#[test]
fn no_questions_need_no_answers() {
    let mut collector = AnswerCollector::new(QuestionsFile(IndexMap::new())).unwrap();
    assert!(collector.next_prompt().is_none());
    assert_eq!(collector.finish().unwrap().len(), 0);
}

#[test]
fn a_reply_with_nothing_left_to_ask_changes_nothing() {
    let mut collector = AnswerCollector::new(QuestionsFile(IndexMap::new())).unwrap();
    collector.record(Reply::Confirm(true));
    assert_eq!(collector.finish().unwrap().len(), 0);
}

#[test]
fn a_question_that_depends_on_a_missing_question_is_skipped() {
    let mut questions = IndexMap::new();
    questions.insert("b".to_string(), question(QuestionType::Text, None, Some("ghost:true")));
    assert_eq!(question_order(&QuestionsFile(questions.clone())).unwrap(), vec!["b".to_string()]);
    let mut collector = AnswerCollector::new(QuestionsFile(questions)).unwrap();
    assert!(collector.next_prompt().is_none());
    assert_eq!(collector.finish().unwrap().len(), 0);
}

#[test]
fn a_missing_question_does_not_hide_the_order_of_the_others() {
    let mut questions = IndexMap::new();
    questions.insert("c".to_string(), question(QuestionType::Text, None, Some("a:yes")));
    questions.insert("b".to_string(), question(QuestionType::Text, None, Some("ghost:true")));
    questions.insert("a".to_string(), question(QuestionType::Text, None, None));
    let order = question_order(&QuestionsFile(questions)).unwrap();
    assert_eq!(order.len(), 3);
    assert_eq!(order[0], "a");
    assert!(order.contains(&"b".to_string()) && order.contains(&"c".to_string()));
}

#[test]
fn a_reply_to_a_question_that_is_not_due_is_dropped() {
    let mut collector = AnswerCollector::new(database_questions()).unwrap();
    let first = collector.next_prompt().unwrap();
    assert_eq!(first.question, "name");
    collector.record(Reply::Text("demo".to_string()));
    let second = collector.next_prompt().unwrap();
    assert_eq!(second.question, "use_db");
    collector.record(Reply::Confirm(false));
    collector.record(Reply::Select("postgres".to_string()));
    assert!(collector.next_prompt().is_none());
    let answers = collector.finish().unwrap();
    assert_eq!(answers.len(), 2);
    assert!(answers.get("db").is_none());
}
