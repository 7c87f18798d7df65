use decision_registry::errors::{AddQuestionError, GetQuestionError, SetDecisionError};
use decision_registry::question::{Decision, Question};
use decision_registry::registry::Registry;

const TAG_A: &str = "Luke'sFunProjectA";
const TAG_B: &str = "Luke'sOtherFunProject";
const TAG_C: &str = "AriesThing";
const TAG_D: &str = "AdasEndeavor";

fn add_some_default_tags(registry: &mut Registry) {
    for x in [TAG_A, TAG_B, TAG_C, TAG_D] {
        let _ = registry.add_tag(&String::from(x));
    }
}

#[test]
fn test_add_tag() {
    let mut registry = Registry::new();
    let tag_value = "Something".to_string();
    let _ = registry.add_tag(&tag_value);
    assert!(registry.get_tags().contains(&tag_value));
}

#[test]
fn test_add_existing_tag_fails() {
    let mut registry = Registry::new();
    let tag_value = "Something".to_string();
    let _ = registry.add_tag(&tag_value);

    assert!(
        registry.add_tag(&tag_value).is_err(),
        "This should have failed due to tag already existing"
    )
}

#[test]
fn test_add_and_question() -> Result<(), AddQuestionError> {
    let mut registry = Registry::new();
    add_some_default_tags(&mut registry);
    let mut question_tags: Vec<String> = Vec::new();
    question_tags.push(TAG_A.parse().unwrap());
    let question = Question::new(
        "How many tests will luke end up writing?".to_string(),
        question_tags,
        Vec::new(),
        Vec::new(),
    );
    let _identifier = registry.add_question(question)?;
    Result::Ok(())
}

#[test]
fn test_question_with_nonexistent_tag_wont_work() {
    let fake_project_name = String::from("ThisIsn'tOneOfMyProjects!");
    let mut registry = Registry::new();
    add_some_default_tags(&mut registry);
    let mut question_tags: Vec<String> = Vec::new();
    question_tags.push(fake_project_name.clone());
    let question = Question::new(
        "How many tests will luke end up writing?".to_string(),
        question_tags,
        Vec::new(),
        Vec::new(),
    );
    match registry.add_question(question) {
        Ok(_) => panic!("This should have never worked!"),
        Err(AddQuestionError::UsesNonExistentTags(tags)) => {
            assert!(tags.contains(&fake_project_name))
        }
        _ => panic!("Got an add question error we did not expect"),
    }
}

#[test]
fn test_adding_context_to_question() {
    let mut registry = Registry::new();
    add_some_default_tags(&mut registry);
    let mut question_tags: Vec<String> = Vec::new();
    question_tags.push(TAG_A.parse().unwrap());
    let question = Question::new(
        "How many tests will luke end up writing?".to_string(),
        question_tags,
        Vec::new(),
        Vec::new(),
    );
    let _identifier = registry.add_question(question);
}

#[test]
fn test_second_add_keeps_one_copy() {
    let mut registry = Registry::new();
    let tag_value = "Something".to_string();
    assert!(registry.add_tag(&tag_value).is_ok());
    let second = registry.add_tag(&tag_value);
    assert!(matches!(second, Err(decision_registry::errors::AddTagErrors::AlreadyExists)));
    let tags = registry.get_tags();
    assert_eq!(tags.iter().filter(|t| *t == &tag_value).count(), 1);
    assert_eq!(tags.len(), 1);
}

#[test]
fn test_admitted_question_round_trips() {
    let mut registry = Registry::new();
    add_some_default_tags(&mut registry);
    let question = Question::new(
        "Which color?".to_string(),
        vec![TAG_A.to_string(), TAG_B.to_string()],
        vec!["We need a color".to_string()],
        vec!["Green".to_string()],
    );
    let identifier = registry.add_question(question).expect("admission should succeed");
    assert_eq!(identifier.len(), 36);
    let copy = registry.get_question(identifier).expect("lookup should succeed");
    assert_eq!(copy.get_content(), "Which color?");
    let mut tags = copy.get_tags();
    tags.sort();
    let mut expected_tags = vec![TAG_A.to_string(), TAG_B.to_string()];
    expected_tags.sort();
    assert_eq!(tags, expected_tags);
    assert_eq!(copy.get_context(), vec!["We need a color".to_string()]);
    assert_eq!(copy.get_options(), vec!["Green".to_string()]);
    assert!(copy.get_decision().is_none());
}

#[test]
fn test_missing_tags_are_exactly_the_difference() {
    let mut registry = Registry::new();
    let _ = registry.add_tag(&"Known".to_string());
    let question = Question::new(
        "Anything?".to_string(),
        vec!["Known".to_string(), "UnknownA".to_string(), "UnknownB".to_string()],
        Vec::new(),
        Vec::new(),
    );
    match registry.add_question(question) {
        Err(AddQuestionError::UsesNonExistentTags(missing)) => {
            assert_eq!(missing.len(), 2);
            assert!(missing.contains(&"UnknownA".to_string()));
            assert!(missing.contains(&"UnknownB".to_string()));
        }
        _ => panic!("admission should have failed on the unknown tags"),
    }
}

#[test]
fn test_adding_same_context_twice_is_idempotent() {
    let mut registry = Registry::new();
    let _ = registry.add_tag(&"Known".to_string());
    let question = Question::new(
        "Anything?".to_string(),
        vec!["Known".to_string()],
        Vec::new(),
        Vec::new(),
    );
    let identifier = registry.add_question(question).expect("admission should succeed");
    registry.add_question_context(identifier.clone(), vec!["background".to_string()]);
    registry.add_question_context(identifier.clone(), vec!["background".to_string()]);
    let copy = registry.get_question(identifier).expect("lookup should succeed");
    assert_eq!(copy.get_context().len(), 1);
    assert_eq!(copy.get_context(), vec!["background".to_string()]);
}

#[test]
fn test_adding_same_option_twice_is_idempotent() {
    let mut registry = Registry::new();
    let _ = registry.add_tag(&"Known".to_string());
    let question = Question::new(
        "Anything?".to_string(),
        vec!["Known".to_string()],
        Vec::new(),
        Vec::new(),
    );
    let identifier = registry.add_question(question).expect("admission should succeed");
    registry.add_question_option(identifier.clone(), vec!["choice".to_string()]);
    registry.add_question_option(identifier.clone(), vec!["choice".to_string()]);
    let copy = registry.get_question(identifier).expect("lookup should succeed");
    assert_eq!(copy.get_options().len(), 1);
}

#[test]
fn test_decision_is_write_once() {
    let mut question = Question::new("Anything?".to_string(), Vec::new(), Vec::new(), Vec::new());
    let first = Decision::new(
        "Red".to_string(),
        "favorite".to_string(),
        vec!["Luke".to_string()],
    );
    assert!(question.set_decision(first).is_ok());
    let second = Decision::new(
        "Blue".to_string(),
        "second thoughts".to_string(),
        vec!["Aries".to_string()],
    );
    match question.set_decision(second) {
        Err(SetDecisionError::AlreadyExists) => {}
        _ => panic!("the second decision should have been refused"),
    }
    let kept = question.get_decision().expect("the first decision should remain");
    assert_eq!(kept.get_choice(), "Red");
    assert_eq!(kept.get_rationale(), "favorite");
    assert_eq!(kept.get_decision_makers(), vec!["Luke".to_string()]);
}

#[test]
fn test_registry_decision_is_write_once() {
    let mut registry = Registry::new();
    let question = Question::new("Anything?".to_string(), Vec::new(), Vec::new(), Vec::new());
    let identifier = registry.add_question(question).expect("admission should succeed");
    let first = Decision::new(
        "Red".to_string(),
        "favorite".to_string(),
        vec!["Luke".to_string()],
    );
    registry.set_question_decision(identifier.clone(), first);
    let second = Decision::new(
        "Blue".to_string(),
        "late regret".to_string(),
        vec!["Ada".to_string()],
    );
    registry.set_question_decision(identifier.clone(), second);
    let copy = registry.get_question(identifier).expect("lookup should succeed");
    let kept = copy.get_decision().expect("the first decision should remain");
    assert_eq!(kept.get_choice(), "Red");
    assert_eq!(kept.get_rationale(), "favorite");
}

#[test]
fn test_get_question_rejects_malformed_identifier() {
    let registry = Registry::new();
    match registry.get_question("not-a-uuid".to_string()) {
        Err(GetQuestionError::InvalidUUID) => {}
        _ => panic!("a malformed identifier should give InvalidUUID"),
    }
}

#[test]
fn test_get_question_unknown_identifier_does_not_exist() {
    let registry = Registry::new();
    match registry.get_question("00000000-0000-0000-0000-000000000000".to_string()) {
        Err(GetQuestionError::DoesNotExist) => {}
        _ => panic!("a well-formed but unregistered identifier should give DoesNotExist"),
    }
}

#[test]
fn test_end_to_end_scenario() {
    let mut registry = Registry::new();
    registry
        .add_tag(&"ProjectA".to_string())
        .expect("registering a fresh tag should succeed");
    let question = Question::new(
        "Pick a color?".to_string(),
        vec!["ProjectA".to_string()],
        Vec::new(),
        Vec::new(),
    );
    let id = registry.add_question(question).expect("admission should succeed");
    registry.add_question_option(id.clone(), vec!["Red".to_string(), "Blue".to_string()]);
    let decision = Decision::new(
        "Red".to_string(),
        "favorite".to_string(),
        vec!["Luke".to_string()],
    );
    registry.set_question_decision(id.clone(), decision);
    let copy = registry.get_question(id).expect("lookup should succeed");
    let mut options = copy.get_options();
    options.sort();
    assert_eq!(options, vec!["Blue".to_string(), "Red".to_string()]);
    let kept = copy.get_decision().expect("the decision should be recorded");
    assert_eq!(kept.get_choice(), "Red");
    assert_eq!(kept.get_rationale(), "favorite");
    assert_eq!(kept.get_decision_makers(), vec!["Luke".to_string()]);
}

#[test]
fn test_identifier_rendering_is_parseable_and_fresh() {
    let mut registry = Registry::new();
    let q1 = Question::new("First?".to_string(), Vec::new(), Vec::new(), Vec::new());
    let q2 = Question::new("Second?".to_string(), Vec::new(), Vec::new(), Vec::new());
    let id1 = registry.add_question(q1).expect("admission should succeed");
    let id2 = registry.add_question(q2).expect("admission should succeed");
    assert_ne!(id1, id2);
    assert_eq!(id1.len(), 36);
    let first = registry.get_question(id1).expect("lookup should succeed");
    let second = registry.get_question(id2).expect("lookup should succeed");
    assert_eq!(first.get_content(), "First?");
    assert_eq!(second.get_content(), "Second?");
}

#[test]
fn test_constructor_collapses_duplicates() {
    let question = Question::new(
        "Anything?".to_string(),
        Vec::new(),
        vec!["same".to_string(), "same".to_string()],
        vec!["one".to_string(), "one".to_string(), "two".to_string()],
    );
    assert_eq!(question.get_context().len(), 1);
    assert_eq!(question.get_options().len(), 2);
}

#[test]
fn test_mutation_on_unresolved_identifier_is_silent() {
    let mut registry = Registry::new();
    registry.add_question_context("not-a-uuid".to_string(), vec!["ctx".to_string()]);
    registry.add_question_option(
        "00000000-0000-0000-0000-000000000000".to_string(),
        vec!["opt".to_string()],
    );
    let decision = Decision::new("x".to_string(), "y".to_string(), Vec::new());
    registry.set_question_decision("not-a-uuid".to_string(), decision);
    match registry.get_question("00000000-0000-0000-0000-000000000000".to_string()) {
        Err(GetQuestionError::DoesNotExist) => {}
        _ => panic!("nothing should have been admitted"),
    }
}
