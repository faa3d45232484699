use indexmap::IndexMap;
use kopye::prompt::check_dependency;
use kopye::prompt::should_prompt;
use kopye::prompt::Answer;
use kopye::prompt::Dependency;
use kopye::prompt::Question;
use kopye::prompt::QuestionType;
use kopye::prompt::QuestionsFile;

fn answers(entries: Vec<(&str, Answer)>) -> IndexMap<String, Answer> {
    let mut map = IndexMap::new();
    for (key, answer) in entries {
        map.insert(key.to_string(), answer);
    }
    map
}

fn question(kind: QuestionType, dependency: Option<Dependency>) -> Question {
    Question { kind, help: String::from("help"), choices: None, raw_dependency: dependency }
}

#[test]
fn condition_on_a_flag() {
    let dependency = Some(Dependency::Condition("flag:true".to_string()));
    assert!(should_prompt(&dependency, &answers(vec![("flag", Answer::Bool(true))])));
    assert!(!should_prompt(&dependency, &answers(vec![("flag", Answer::Bool(false))])));
    assert!(!should_prompt(&dependency, &answers(vec![])));
}

#[test]
fn all_needs_every_predicate() {
    let dependency = Some(Dependency::And { all: vec!["a:1".to_string(), "b:2".to_string()] });
    let one = Answer::String("1".to_string());
    let two = Answer::String("2".to_string());
    assert!(should_prompt(&dependency, &answers(vec![("a", one.clone()), ("b", two.clone())])));
    assert!(!should_prompt(&dependency, &answers(vec![("a", one.clone())])));
    assert!(!should_prompt(&dependency, &answers(vec![("b", two.clone())])));
    assert!(!should_prompt(&dependency, &answers(vec![("a", two), ("b", one)])));
    assert!(should_prompt(&Some(Dependency::And { all: vec![] }), &answers(vec![])));
}

#[test]
fn any_needs_one_predicate() {
    let dependency = Some(Dependency::Or { any: vec!["a:1".to_string(), "b:2".to_string()] });
    let one = Answer::String("1".to_string());
    let two = Answer::String("2".to_string());
    assert!(should_prompt(&dependency, &answers(vec![("a", one.clone())])));
    assert!(should_prompt(&dependency, &answers(vec![("b", two.clone())])));
    assert!(should_prompt(&dependency, &answers(vec![("a", one.clone()), ("b", two.clone())])));
    assert!(!should_prompt(&dependency, &answers(vec![("a", two), ("b", one)])));
    assert!(!should_prompt(&Some(Dependency::Or { any: vec![] }), &answers(vec![])));
}

#[test]
fn no_dependency_is_always_asked() {
    assert!(should_prompt(&None, &answers(vec![])));
}

#[test]
fn predicate_on_text_compares_the_text() {
    let given = answers(vec![("lang", Answer::String("rust".to_string()))]);
    assert!(check_dependency("lang:rust", &given));
    assert!(!check_dependency("lang:go", &given));
    assert!(!check_dependency("lang:", &given));
}

#[test]
fn predicate_splits_at_the_first_colon() {
    let given = answers(vec![("url", Answer::String("http://x".to_string()))]);
    assert!(check_dependency("url:http://x", &given));
    assert!(!check_dependency("url:http", &given));
}

#[test]
fn predicate_on_a_flag_reads_a_boolean() {
    let given = answers(vec![("flag", Answer::Bool(false))]);
    assert!(check_dependency("flag:false", &given));
    assert!(!check_dependency("flag:true", &given));
    assert!(!check_dependency("flag:no", &given));
    assert!(!check_dependency("flag:False", &given));
}

#[test]
fn predicate_on_a_list_looks_for_a_member() {
    let given = answers(vec![(
        "features",
        Answer::Array(vec!["ci".to_string(), "docs".to_string()]),
    )]);
    assert!(check_dependency("features:docs", &given));
    assert!(!check_dependency("features:doc", &given));
}

#[test]
fn predicate_without_a_colon_never_holds() {
    let given = answers(vec![("flag", Answer::Bool(true))]);
    assert!(!check_dependency("flag", &given));
    assert!(!check_dependency("", &given));
}

#[test]
fn predicate_on_an_unanswered_question_never_holds() {
    assert!(!check_dependency("ghost:true", &answers(vec![("flag", Answer::Bool(true))])));
}

#[test]
fn edges_run_from_the_question_named_to_the_one_that_depends() {
    let mut questions = IndexMap::new();
    questions.insert("name".to_string(), question(QuestionType::Text, None));
    questions.insert(
        "db".to_string(),
        question(QuestionType::Select, Some(Dependency::Condition("use_db:true".to_string()))),
    );
    questions.insert(
        "orm".to_string(),
        question(
            QuestionType::Confirm,
            Some(Dependency::And { all: vec!["use_db:true".to_string(), "db:postgres".to_string()] }),
        ),
    );
    questions.insert(
        "cache".to_string(),
        question(
            QuestionType::Confirm,
            Some(Dependency::Or { any: vec!["broken".to_string(), "db:redis".to_string()] }),
        ),
    );
    let file = QuestionsFile(questions);
    let edges = QuestionsFile::adjacency_list_from_file(&file);
    let expected: Vec<(String, String)> = vec![
        ("use_db".to_string(), "db".to_string()),
        ("use_db".to_string(), "orm".to_string()),
        ("db".to_string(), "orm".to_string()),
        ("db".to_string(), "cache".to_string()),
    ];
    assert_eq!(edges, expected);
    assert_eq!(
        QuestionsFile::question_names(&file),
        vec!["name".to_string(), "db".to_string(), "orm".to_string(), "cache".to_string()]
    );
}
