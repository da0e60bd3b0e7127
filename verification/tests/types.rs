use munje::types::{CurrentPage, DateTime, Id, Markdown, Message};
use munje::users::User;

#[test]
fn internal_id() {
    let id = Id(1);
    assert_eq!(1, id.internal_id());
}

#[test]
fn external_id() {
    let id = Id(1);
    assert_eq!("LD".to_string(), id.external_id());
}

#[test]
fn current_page_at() {
    let page = CurrentPage::from("/path", User::guest());
    assert!(page.at("/path"));
    assert!(!page.at("/another-path"));
}

#[test]
fn current_page_is_authenticated() {
    let user = User {
        handle: "gnusto".to_string(),
        is_anonymous: false,
        ..User::default()
    };
    let page = CurrentPage::from("/path", user);
    assert!(page.is_authenticated());

    let page = CurrentPage::from("/path", User::guest());
    assert!(!page.is_authenticated());
}

#[test]
fn current_page_handle() {
    let user = User {
        handle: "gnusto".to_string(),
        is_anonymous: false,
        ..User::default()
    };
    let page = CurrentPage::from("/path", user);
    assert_eq!("gnusto".to_string(), page.handle());
}

#[test]
fn current_page_active() {
    let page = CurrentPage::from("/queues", User::guest());
    assert_eq!("is-active", page.active("/queues"));
    assert_eq!("", page.active("/questions"));
}

#[test]
fn markdown_renders_html() {
    let md = Markdown::from("# Heading".to_string());
    assert_eq!("<h1>Heading</h1>\n", md.markdown());
    assert_eq!("# Heading", md.text);
}

#[test]
fn datetime_parses_rfc3339() {
    let dt = DateTime::from("2022-01-01T00:00:00Z");
    assert_eq!(1_640_995_200, dt.seconds);
}

#[test]
fn datetime_ordering_and_shift() {
    let base = DateTime { seconds: 100 };
    let later = base.plus_seconds(60);
    assert_eq!(160, later.seconds);
    assert!(base.le(later));
    assert!(!later.le(base));
}

#[test]
fn messages_start_empty() {
    assert!(Message::none().is_empty());
    let message = Message::new("saved", "info");
    assert_eq!("saved", message.content);
    assert_eq!("info", message.level);
}
