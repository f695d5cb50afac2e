use mdvault::error::Error;
use mdvault::prompt::Context;
use mdvault::prompt::Prompt;

#[test]
fn test_prompt_new() {
    let prompt = Prompt::new("You are a helpful assistant", "This is a sample prompt", Some(100));
    assert_eq!(prompt.system_prompt, "You are a helpful assistant");
    assert_eq!(prompt.user_prompt, "This is a sample prompt");
    assert_eq!(prompt.max_characters, Some(100));
}

#[test]
fn test_prompt_substitube_valid() {
    let prompt = Prompt::new(
        "You are a helpful assistant named [name]",
        "This is a sample prompt",
        Some(100),
    );
    let mut context = Context::default();
    context.insert("name", "Bob");
    let expected = Prompt::new(
        "You are a helpful assistant named Bob",
        "This is a sample prompt",
        Some(100),
    );
    let actual = prompt.substitute(&context).unwrap();
    assert_eq!(actual, expected);
}

#[test]
fn test_prompt_substitube_invalid() {
    let prompt = Prompt::new(
        "You are a helpful assistant named [name]",
        "This is a sample prompt",
        Some(100),
    );
    let context = Context::default();
    let actual = prompt.substitute(&context);
    assert!(actual.is_err());
}

#[test]
fn test_substitute_multiple_keys() {
    let prompt = Prompt::new(
        "You are a helpful [profession] named [name]",
        "A prompt for a(n) [profession]",
        None,
    );
    let mut context = Context::default();
    context.insert("name", "Bob");
    context.insert("profession", "assistant");
    let actual = prompt.substitute(&context).unwrap();
    assert_eq!(actual.system_prompt, "You are a helpful assistant named Bob");
    assert_eq!(actual.user_prompt, "A prompt for a(n) assistant");
    assert_eq!(actual.max_characters, None);
}

#[test]
fn test_substitute_missing_key_message() {
    let prompt = Prompt::new("Hello [who]", "", Some(10));
    let context = Context::default();
    match prompt.substitute(&context) {
        Err(Error::InvalidContextKey(msg)) => {
            assert_eq!(msg, "Key not found in context: who");
        }
        other => panic!("expected InvalidContextKey, got {:?}", other),
    }
}

#[test]
fn test_substitute_ignores_non_tokens() {
    let prompt = Prompt::new("no brackets", "half [open and ] stray", Some(5));
    let context = Context::default();
    let actual = prompt.substitute(&context).unwrap();
    assert_eq!(actual.system_prompt, "no brackets");
    assert_eq!(actual.user_prompt, "half [open and ] stray");
}

#[test]
fn test_context_insert_overwrites() {
    let mut context = Context::default();
    context.insert("name", "Bob");
    context.insert("name", "Eve");
    assert_eq!(context.get("name"), Some(&"Eve".to_string()));
    assert_eq!(context.get("absent"), None);
}
