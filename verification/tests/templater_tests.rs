use std::sync::Arc;
use templater_rs::render::substitution;
use templater_rs::{Formatter, TemplateError, Templater, TemplaterBuilder};

struct Person {
    id: u32,
    name: String,
    nick: Option<String>,
}

fn alice() -> Person {
    Person { id: 7, name: "Alice".to_owned(), nick: None }
}

fn people() -> Templater<Person> {
    let mut templater = Templater::new();
    templater.insert("id", |p: &Person| Some(p.id.to_string()));
    templater.insert("name", |p: &Person| Some(p.name.clone()));
    templater.insert("nick", |p: &Person| p.nick.clone());
    templater
}

#[test]
fn renders_id_and_name() {
    let result = people().render(&alice(), "%(id) %(name)");
    assert_eq!(result.ok().unwrap(), "7 Alice");
}

#[test]
fn escaped_marker_is_no_placeholder() {
    let empty: Templater<Person> = Templater::new();
    assert_eq!(empty.render(&alice(), "%%(x)").ok().unwrap(), "%(x)");
    let mut bound = people();
    bound.insert("x", |_: &Person| Some("never".to_owned()));
    assert_eq!(bound.render(&alice(), "%%(x)").ok().unwrap(), "%(x)");
}

#[test]
fn missing_selector_in_empty_registry() {
    let empty: Templater<Person> = Templater::new();
    match empty.render(&alice(), "%(missing)") {
        Err(TemplateError::UnknownSelector { selector }) => assert_eq!(selector, "missing"),
        _ => panic!("expected UnknownSelector"),
    }
}

#[test]
fn unterminated_placeholder_fails_before_rendering() {
    assert!(matches!(
        people().render(&alice(), "%(a"),
        Err(TemplateError::UnexpectedEnd { .. })
    ));
}

#[test]
fn parse_error_comes_before_unknown_selector() {
    match people().render(&alice(), "%(missing) %z") {
        Err(TemplateError::UnexpectedCharacter { character, formats }) => {
            assert_eq!(character, "z");
            assert_eq!(formats, "%(missing) %z");
        }
        _ => panic!("expected UnexpectedCharacter"),
    }
}

#[test]
fn plain_text_renders_unchanged() {
    let empty: Templater<Person> = Templater::new();
    for text in ["", "hello world", "(a) b)", "蒼樹うめ", "e\u{301}"] {
        assert_eq!(empty.render(&alice(), text).ok().unwrap(), text);
        assert_eq!(people().render(&alice(), text).ok().unwrap(), text);
    }
}

#[test]
fn empty_template_renders_empty_text() {
    let formatter = Formatter::build("").ok().unwrap();
    assert_eq!(people().renderf(&alice(), &formatter).ok().unwrap(), "");
}

#[test]
fn first_unknown_selector_is_reported() {
    match people().render(&alice(), "%(id) %(first) %(second)") {
        Err(TemplateError::UnknownSelector { selector }) => assert_eq!(selector, "first"),
        _ => panic!("expected UnknownSelector"),
    }
}

#[test]
fn unknown_selector_text_is_exact() {
    for selector in ["", " ", "a.b", "%(", "Name", "名前"] {
        let text = format!("%({})", selector);
        match people().render(&alice(), &text) {
            Err(TemplateError::UnknownSelector { selector: reported }) => {
                assert_eq!(reported, selector)
            }
            _ => panic!("expected UnknownSelector"),
        }
    }
}

#[test]
fn no_accessor_runs_after_an_unknown_selector() {
    let calls = Arc::new(std::sync::atomic::AtomicUsize::new(0));
    let seen = calls.clone();
    let mut templater: Templater<Person> = Templater::new();
    templater.insert("count", move |_: &Person| {
        seen.fetch_add(1, std::sync::atomic::Ordering::SeqCst);
        Some("x".to_owned())
    });
    let result = templater.render(&alice(), "%(count)%(missing)%(count)");
    assert!(matches!(result, Err(TemplateError::UnknownSelector { .. })));
    assert_eq!(calls.load(std::sync::atomic::Ordering::SeqCst), 1);
}

#[test]
fn missing_value_renders_na() {
    assert_eq!(people().render(&alice(), "[%(nick)]").ok().unwrap(), "[NA]");
    assert_eq!(
        people().render(&alice(), "%(id)%(nick)%(name)%(nick)").ok().unwrap(),
        "7NAAliceNA"
    );
}

#[test]
fn present_value_is_rendered_exactly() {
    let person = Person { id: 1, name: "B".to_owned(), nick: Some("".to_owned()) };
    assert_eq!(people().render(&person, "[%(nick)]").ok().unwrap(), "[]");
    let person = Person { id: 1, name: "B".to_owned(), nick: Some("NA%(id)".to_owned()) };
    assert_eq!(people().render(&person, "[%(nick)]").ok().unwrap(), "[NA%(id)]");
}

#[test]
fn substitution_of_an_answer() {
    assert_eq!(substitution(None), "NA");
    assert_eq!(substitution(Some("text".to_owned())), "text");
    assert_eq!(substitution(Some(String::new())), "");
}

#[test]
fn rendering_twice_gives_the_same_text() {
    let templater = people();
    let formatter = Formatter::build("%(id): %(name) (%(nick)) 100%%").ok().unwrap();
    let person = alice();
    let first = templater.renderf(&person, &formatter).ok().unwrap();
    let second = templater.renderf(&person, &formatter).ok().unwrap();
    assert_eq!(first, "7: Alice (NA) 100%");
    assert_eq!(first, second);
    let failing = Formatter::build("%(id) %(other)").ok().unwrap();
    for _ in 0..2 {
        match templater.renderf(&person, &failing) {
            Err(TemplateError::UnknownSelector { selector }) => assert_eq!(selector, "other"),
            _ => panic!("expected UnknownSelector"),
        }
    }
}

#[test]
fn one_template_serves_many_objects() {
    let templater = people();
    let formatter = Formatter::build("%(name)#%(id)").ok().unwrap();
    let bob = Person { id: 8, name: "Bob".to_owned(), nick: None };
    assert_eq!(templater.renderf(&alice(), &formatter).ok().unwrap(), "Alice#7");
    assert_eq!(templater.renderf(&bob, &formatter).ok().unwrap(), "Bob#8");
}

#[test]
fn insert_replaces_an_earlier_binding() {
    let mut templater = people();
    templater.insert("name", |p: &Person| Some(p.name.to_uppercase()));
    assert_eq!(templater.render(&alice(), "%(name)").ok().unwrap(), "ALICE");
}

#[test]
fn remove_says_whether_a_binding_existed() {
    let mut templater = people();
    assert!(templater.remove("name"));
    assert!(!templater.remove("name"));
    assert!(!templater.remove("never bound"));
    match templater.render(&alice(), "%(id) %(name)") {
        Err(TemplateError::UnknownSelector { selector }) => assert_eq!(selector, "name"),
        _ => panic!("expected UnknownSelector"),
    }
    assert_eq!(templater.render(&alice(), "%(id)").ok().unwrap(), "7");
}

#[test]
fn extend_binds_in_order_and_the_last_wins() {
    let mut templater = people();
    let pairs: Vec<(String, Box<dyn Fn(&Person) -> Option<String> + Send + Sync>)> = vec![
        ("x".to_owned(), Box::new(|_: &Person| Some("first".to_owned()))),
        ("y".to_owned(), Box::new(|p: &Person| Some(p.name.len().to_string()))),
        ("x".to_owned(), Box::new(|_: &Person| Some("second".to_owned()))),
        ("id".to_owned(), Box::new(|_: &Person| None)),
    ];
    templater.extend(pairs);
    assert_eq!(
        templater.render(&alice(), "%(x) %(y) %(id) %(name)").ok().unwrap(),
        "second 5 NA Alice"
    );
}

#[test]
fn extend_with_nothing_changes_nothing() {
    let mut templater = people();
    let pairs: Vec<(String, fn(&Person) -> Option<String>)> = Vec::new();
    templater.extend(pairs);
    assert_eq!(templater.render(&alice(), "%(id) %(name)").ok().unwrap(), "7 Alice");
    assert!(templater.render(&alice(), "%(x)").is_err());
}

#[test]
fn builder_forwards_to_the_registry() {
    let templater = TemplaterBuilder::<Person>::new()
        .with_selector("name", |p| Some(p.name.clone()))
        .with_selector("name", |p| Some(format!("<{}>", p.name)))
        .with_selector("", |_| Some("empty".to_owned()))
        .build();
    assert_eq!(templater.render(&alice(), "%(name)%()").ok().unwrap(), "<Alice>empty");
    let empty = TemplaterBuilder::<Person>::new().build();
    assert!(matches!(
        empty.render(&alice(), "%(name)"),
        Err(TemplateError::UnknownSelector { .. })
    ));
}

#[test]
fn selectors_are_whole_strings() {
    let mut templater: Templater<Person> = Templater::new();
    templater.insert("a b", |_: &Person| Some("1".to_owned()));
    templater.insert("A B", |_: &Person| Some("2".to_owned()));
    assert_eq!(templater.render(&alice(), "%(a b)%(A B)").ok().unwrap(), "12");
    assert!(templater.render(&alice(), "%(a  b)").is_err());
}

fn shareable<X: Send + Sync>(_: &X) {}

#[test]
fn registry_and_template_can_be_shared() {
    let templater = Arc::new(people());
    let formatter = Arc::new(Formatter::build("%(id)-%(name)").ok().unwrap());
    shareable(&templater);
    shareable(&formatter);
    let other = templater.clone();
    assert_eq!(other.renderf(&alice(), &formatter).ok().unwrap(), "7-Alice");
    assert_eq!(templater.renderf(&alice(), &formatter).ok().unwrap(), "7-Alice");
}
