//! How the bot answers messages.
use catbot::handler::cat::{Cat, CatSource, CatStep};
use catbot::handler::colon3::{build_pyramid, parse_num, parse_u8_chars, SizeError};
use catbot::handler::owo::{OwO, OWO};
use catbot::handler::Processor;
use catbot::handler::{apology_message, debug_prefix, internal_error_message, release_prefix, CatBotHandler, Response};
use catbot::Config;

fn config() -> Config {
    Config {
        post: vec![
            ("Dogs".to_string(), "https://example.com/dog.png".to_string()),
            ("ΣΟΦΙΑ".to_string(), "wisdom".to_string()),
        ],
        token: None,
        server: None,
    }
}

fn handler() -> CatBotHandler {
    CatBotHandler::new(&config())
}

fn reply(text: &str) -> Option<Response> {
    Some(Response::Reply(text.to_string()))
}

#[test]
fn ignores_messages_without_prefix() {
    let h = handler();
    assert_eq!(h.process_msg("cat", "ann"), None);
    assert_eq!(h.process_msg("hello catbot cat", "ann"), None);
    assert_eq!(h.process_msg("CATBOT cat", "ann"), None);
}

#[test]
fn ignores_commands_that_fit_no_pattern() {
    let h = handler();
    assert_eq!(h.process_msg("catbot", "ann"), None);
    assert_eq!(h.process_msg("catbot dance", "ann"), None);
    assert_eq!(h.process_msg("catbot cat ", "ann"), None);
}

#[test]
fn prefix_then_whitespace() {
    let h = handler();
    assert_eq!(h.process_msg("catbot cat", "ann"), Some(Response::FetchCat));
    assert_eq!(h.process_msg("catbot \t\n cat", "ann"), Some(Response::FetchCat));
    assert_eq!(h.process_msg("catbotcat", "ann"), Some(Response::FetchCat));
    assert_eq!(h.process_msg("catbot\u{3000}FELINE", "ann"), Some(Response::FetchCat));
}

#[test]
fn debug_prefix_handler() {
    let h = handler().with_prefix(debug_prefix());
    assert_eq!(h.process_msg("cbd cat", "ann"), Some(Response::FetchCat));
    assert_eq!(h.process_msg("catbot cat", "ann"), None);
    assert_eq!(release_prefix(), "catbot");
    assert_eq!(debug_prefix(), "cbd");
}

#[test]
fn pyramid_default_height() {
    let h = handler();
    assert_eq!(h.process_msg("catbot pyramid", "ann"), reply("🐱\n🐱🐱\n🐱🐱🐱\n🐱🐱\n🐱\n"));
}

#[test]
fn old_pyramid() {
    let h = handler();
    assert_eq!(h.process_msg("catbot old pyramid 2", "ann"), reply(":3  \n:3  :3  \n:3  \n"));
    assert_eq!(h.process_msg("catbot Old Pyramid 1", "ann"), reply(":3  \n"));
}

#[test]
fn pyramid_height_errors() {
    let h = handler();
    assert_eq!(
        h.process_msg("catbot pyramid 15", "ann"),
        Some(Response::Apology("I'm sorry ann, I'm afraid I can't do that (Invalid pyramid size 15. Must be from 1 to 14)".to_string()))
    );
    assert_eq!(
        h.process_msg("catbot pyramid 0", "bob"),
        Some(Response::Apology("I'm sorry bob, I'm afraid I can't do that (Invalid pyramid size 0. Must be from 1 to 14)".to_string()))
    );
    assert_eq!(
        h.process_msg("catbot pyramid 256", "ann"),
        Some(Response::Apology("I'm sorry ann, I'm afraid I can't do that (number too large to fit in target type)".to_string()))
    );
    assert_eq!(
        h.process_msg("catbot pyramid ٣", "ann"),
        Some(Response::Apology("I'm sorry ann, I'm afraid I can't do that (invalid digit found in string)".to_string()))
    );
}

#[test]
fn pyramid_leading_zeros() {
    let h = handler();
    assert_eq!(h.process_msg("catbot pyramid 001", "ann"), reply("🐱\n"));
}

#[test]
fn parse_num_agrees_with_std() {
    for s in ["", "+", "-", "0", "1", "14", "15", "+7", "-7", "007", "255", "256", "999", "26٣", "999٣", "٣", "1 ", " 1", "+14", "++1"] {
        let expected = match s.parse::<u8>() {
            Ok(n) if (1..=14).contains(&n) => Ok(n),
            Ok(n) => Err(SizeError::OutOfRange(n)),
            Err(e) => Err(match e.kind() {
                std::num::IntErrorKind::Empty => SizeError::Empty,
                std::num::IntErrorKind::InvalidDigit => SizeError::InvalidDigit,
                _ => SizeError::TooLarge,
            }),
        };
        assert_eq!(parse_num(s), expected, "{:?}", s);
        if let (Err(mine), Err(e)) = (parse_num(s), s.parse::<u8>()) {
            if !matches!(mine, SizeError::OutOfRange(_)) {
                assert_eq!(mine.message(), e.to_string());
            }
        }
    }
}

#[test]
fn size_error_messages() {
    assert_eq!(SizeError::Empty.message(), "cannot parse integer from empty string");
    assert_eq!(SizeError::InvalidDigit.message(), "invalid digit found in string");
    assert_eq!(SizeError::TooLarge.message(), "number too large to fit in target type");
    assert_eq!(SizeError::OutOfRange(200).message(), "Invalid pyramid size 200. Must be from 1 to 14");
}

#[test]
fn pyramid_size_law_on_values() {
    for n in 1..=14u8 {
        let p = build_pyramid(&[':', '3', ' ', ' '], n);
        let n = n as usize;
        assert_eq!(p.chars().count(), 4 * n * n + 2 * n - 1);
        assert_eq!(p.lines().count(), 2 * n - 1);
    }
}

#[test]
fn no_deletes_latest() {
    let h = handler();
    assert_eq!(h.process_msg("catbot no", "ann"), Some(Response::DeleteLatest));
    assert_eq!(h.process_msg("catbot please undo!!", "ann"), Some(Response::DeleteLatest));
    assert_eq!(h.process_msg("catbot i beg youstop", "ann"), Some(Response::DeleteLatest));
}

#[test]
fn help_anywhere() {
    let h = handler();
    let r = h.process_msg("catbot could you HELP me", "ann");
    match r {
        Some(Response::Reply(text)) => {
            assert!(text.starts_with("I can help you\nstart each command with `catbot`"));
            assert!(text.ends_with("`no`: delete latest message"));
        }
        other => panic!("{:?}", other),
    }
}

#[test]
fn earlier_processor_wins() {
    let h = handler();
    // `help` comes before `post`, so an item named like it cannot be posted.
    assert!(matches!(h.process_msg("catbot post help", "ann"), Some(Response::Reply(t)) if t.starts_with("I can help you")));
    // `no` comes before `help`.
    assert_eq!(h.process_msg("catbot no", "ann"), Some(Response::DeleteLatest));
}

#[test]
fn love() {
    let h = handler();
    assert_eq!(h.process_msg("catbot i love you", "ann"), reply("I know"));
    assert_eq!(h.process_msg("catbot, I LOVE YOU!", "ann"), reply("I know"));
}

#[test]
fn post_items_any_case() {
    let h = handler();
    assert_eq!(h.process_msg("catbot post dogs", "ann"), reply("https://example.com/dog.png"));
    assert_eq!(h.process_msg("catbot post DOGS", "ann"), reply("https://example.com/dog.png"));
    assert_eq!(h.process_msg("catbot post σοφια", "ann"), reply("wisdom"));
    assert_eq!(h.process_msg("catbot post ΣΟΦΙΑ", "ann"), reply("wisdom"));
    assert_eq!(h.process_msg("catbot post cats", "ann"), reply("I'm sorry. I don't have anything like this."));
}

#[test]
fn post_item_ends_at_line_break() {
    let h = handler();
    assert_eq!(h.process_msg("catbot post dogs\nand more", "ann"), reply("https://example.com/dog.png"));
}

#[test]
fn cat_fetch_steps() {
    assert_eq!(Cat.after_fetch(CatSource::Main, Some("u".to_string())), CatStep::Reply("u".to_string()));
    assert_eq!(Cat.after_fetch(CatSource::Main, None), CatStep::TryFallback);
    assert_eq!(Cat.after_fetch(CatSource::Fallback, Some("f".to_string())), CatStep::Reply("f".to_string()));
    assert_eq!(Cat.after_fetch(CatSource::Fallback, None), CatStep::Fail("Could not get a cat picture".to_string()));
    assert_eq!(Cat.main_api(), "http://thecatapi.com/api/images/get?format=src");
    assert_eq!(Cat.fallback_api(), "http://aws.random.cat/meow");
}

#[test]
fn error_texts() {
    assert_eq!(internal_error_message(), "Internal error. What have you done?");
    assert_eq!(apology_message("ann", "why"), "I'm sorry ann, I'm afraid I can't do that (why)");
}

#[test]
fn parse_decimal_roundtrip() {
    for n in 0..=255u8 {
        let v: Vec<char> = n.to_string().chars().collect();
        assert_eq!(parse_u8_chars(&v), Ok(n));
    }
}

#[test]
fn owo_when_added() {
    let h = handler();
    assert_eq!(h.process_msg("catbot owo", "ann"), None);
    let h = h.with_processor(Processor::OwO(OwO));
    assert_eq!(h.process_msg("catbot what OwO", "ann"), reply(OWO));
    assert!(OWO.starts_with('🌑') && OWO.ends_with('🌑'));
    assert_eq!(OWO.lines().count(), 6);
}

#[test]
fn custom_pyramid() {
    let h = handler();
    assert_eq!(h.process_msg("catbot custom :) pyramid 2", "ann"), reply(":)\n:):)\n:)\n"));
    assert_eq!(h.process_msg("catbot CUSTOM ab Pyramid", "ann"), reply("ab\nabab\nababab\nabab\nab\n"));
    assert_eq!(h.process_msg("catbot custom x pyramid y pyramid 1", "ann"), reply("x pyramid y\n"));
    assert_eq!(
        h.process_msg("catbot custom x pyramid 20", "ann"),
        Some(Response::Apology("I'm sorry ann, I'm afraid I can't do that (Invalid pyramid size 20. Must be from 1 to 14)".to_string()))
    );
    assert_eq!(h.process_msg("catbot custom pyramid", "ann"), None);
}

#[test]
fn old_pyramid_is_cat_pyramid_with_faces() {
    let h = handler();
    for n in 1..=14 {
        let cats = h.process_msg(&format!("catbot pyramid {}", n), "ann");
        let old = h.process_msg(&format!("catbot old pyramid {}", n), "ann");
        match (cats, old) {
            (Some(Response::Reply(c)), Some(Response::Reply(o))) => {
                assert_eq!(c.replace('🐱', ":3  "), o);
                assert_eq!(o.matches('\n').count(), 2 * n - 1);
            }
            other => panic!("{:?}", other),
        }
    }
}

#[test]
fn failure_notices() {
    let internal = Some("Internal error. What have you done?".to_string());
    assert_eq!(Response::Reply("x".to_string()).failure_notice(false), internal);
    assert_eq!(Response::Reply("x".to_string()).failure_notice(true), None);
    assert_eq!(Response::DeleteLatest.failure_notice(false), internal);
    assert_eq!(Response::FetchCat.failure_notice(false), internal);
    assert_eq!(Response::FetchCat.failure_notice(true), None);
    assert_eq!(Response::Apology("x".to_string()).failure_notice(false), None);
}
