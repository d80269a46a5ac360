use glidewin::conversation::{greet, screenshot_read, user_content, ConversationState, UserPart};

#[test]
fn a_turn_sends_the_screenshot_before_the_message() {
    assert_eq!(
        user_content("hi", Some(b"foob".to_vec())),
        [UserPart::Image("Zm9vYg==".to_string()), UserPart::Text("hi".to_string())]
    );
    assert_eq!(user_content("hi", None), [UserPart::Text("hi".to_string())]);
}

#[test]
fn a_screenshot_has_to_be_readable() {
    assert_eq!(screenshot_read(Ok(vec![9])), Ok(vec![9]));
    assert_eq!(
        screenshot_read(Err("gone".to_string())),
        Err("Failed to read screenshot: gone".to_string())
    );
}

#[test]
fn only_a_turn_with_an_answer_is_remembered() {
    let mut c: ConversationState<u8> = ConversationState::new();
    assert!(c.history().is_empty());
    assert_eq!(c.finish_turn(Ok("a".to_string()), vec![1, 2]), Ok("a".to_string()));
    assert_eq!(c.history(), &[1, 2]);
    assert_eq!(c.finish_turn(Err("e".to_string()), vec![1, 2, 3]), Err("e".to_string()));
    assert_eq!(c.history(), &[1, 2]);
    c.clear();
    assert!(c.history().is_empty());
}

#[test]
fn greets_by_name() {
    assert_eq!(greet("Ada"), "Hello, Ada! You've been greeted from Rust!");
}
