use site::server::push::{Push, Pushes, UpdatingStatus};
use site::server::reply::{Body, ContentType, Reply};

const SECOND: u128 = 1_000_000_000;

fn text(body: &str) -> Push {
    Push::Answer(Reply {
        status: 200,
        content_type: Some(ContentType::TextUtf8),
        uncached: false,
        body: Body::Text(body.to_string()),
    })
}

#[test]
fn first_push_updates() {
    let mut pushes = Pushes::new();
    assert_eq!(pushes.handle_push(17), Push::Update);
    assert_eq!(pushes.last_update, Some(17));
    assert!(pushes.status.updating);
}

#[test]
fn push_within_the_pause_is_told_to_wait() {
    let mut pushes = Pushes::new();
    pushes.handle_push(0);
    pushes.finish(false);
    let before = pushes;
    assert_eq!(
        pushes.handle_push(2 * SECOND + 500_000_000),
        text("Refreshed too recently (2.5s ago). Please wait.")
    );
    assert_eq!(
        pushes.handle_push(1_500_000),
        text("Refreshed too recently (1.5ms ago). Please wait.")
    );
    assert_eq!(
        pushes.handle_push(300 * SECOND - 1),
        text("Refreshed too recently (299.999999999s ago). Please wait.")
    );
    assert_eq!(pushes, before);
}

#[test]
fn clock_that_stands_still_gives_no_time() {
    let mut pushes = Pushes::new();
    pushes.handle_push(10);
    assert_eq!(
        pushes.handle_push(5),
        text("Refreshed too recently (0ns ago). Please wait.")
    );
}

#[test]
fn push_behind_the_pause_finds_the_update_under_way() {
    let mut pushes = Pushes::new();
    pushes.handle_push(0);
    assert_eq!(pushes.handle_push(300 * SECOND), text("Already updating!"));
    assert_eq!(pushes.last_update, Some(300 * SECOND));
    assert_eq!(
        pushes.handle_push(301 * SECOND),
        text("Refreshed too recently (1s ago). Please wait.")
    );
}

#[test]
fn push_behind_the_pause_updates_again() {
    let mut pushes = Pushes::new();
    pushes.handle_push(0);
    assert_eq!(pushes.finish(false), "done");
    assert_eq!(pushes.handle_push(300 * SECOND), Push::Update);
    assert_eq!(pushes.finish(true), "panicked, try again");
    assert!(!pushes.status.updating);
}

#[test]
fn status_tells_what_it_was() {
    let mut status = UpdatingStatus::new();
    assert!(!status.set_updating());
    assert!(status.set_updating());
    assert_eq!(status.release(false), "done");
    assert!(!status.set_updating());
}
