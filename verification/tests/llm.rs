use immich_cli::client::{asset_endpoint, ocr_endpoint, thumbnail_endpoint};
use immich_cli::error::Error;
use immich_cli::llm::{
    caption_request, chat, chat_content, chat_url, data_url, pick_request, rank_request,
    ChatBackend, Message, Part,
};
use std::cell::RefCell;

fn texts(parts: &Vec<Part>) -> Vec<String> {
    parts
        .iter()
        .map(|p| match p {
            Part::Text(text) => format!("text {text}"),
            Part::Image(url) => format!("image {url}"),
        })
        .collect()
}

#[test]
fn messages_have_a_role() {
    let m = Message::system("be brief");
    assert_eq!((m.role, m.content.as_str()), ("system", "be brief"));
    let m = Message::user("hello");
    assert_eq!((m.role, m.content.as_str()), ("user", "hello"));
}

struct Recorder(RefCell<Vec<(&'static str, String)>>);
impl ChatBackend for Recorder {
    fn chat_json(&self, messages: &Vec<Message>) -> Result<String, Error> {
        for m in messages {
            self.0.borrow_mut().push((m.role, m.content.clone()));
        }
        Ok("{}".into())
    }
}

#[test]
fn a_chat_sends_the_system_prompt_first() {
    let llm = Recorder(RefCell::new(vec![]));
    assert_eq!(chat(&llm, "rules", "question").unwrap(), "{}");
    assert_eq!(
        *llm.0.borrow(),
        vec![
            ("system", "rules".to_string()),
            ("user", "question".to_string())
        ]
    );
}

#[test]
fn images_are_written_in_base64() {
    assert_eq!(
        data_url(&vec![], "image/png"),
        "data:image/png;base64,"
    );
    assert_eq!(
        data_url(&b"M".to_vec(), "image/jpeg"),
        "data:image/jpeg;base64,TQ=="
    );
    assert_eq!(
        data_url(&b"Ma".to_vec(), "image/jpeg"),
        "data:image/jpeg;base64,TWE="
    );
    assert_eq!(
        data_url(&b"Man".to_vec(), "image/jpeg"),
        "data:image/jpeg;base64,TWFu"
    );
    assert_eq!(
        data_url(&vec![0xfb, 0xff, 0xfe, 0x00], "image/jpeg"),
        "data:image/jpeg;base64,+//+AA=="
    );
}

#[test]
fn addresses_are_joined_with_one_slash() {
    assert_eq!(chat_url("http://m"), "http://m/v1/chat/completions");
    assert_eq!(chat_url("http://m//"), "http://m/v1/chat/completions");
    assert_eq!(asset_endpoint("a1"), "/api/assets/a1");
    assert_eq!(thumbnail_endpoint("a1"), "/api/assets/a1/thumbnail");
    assert_eq!(ocr_endpoint("a1"), "/api/assets/a1/ocr");
}

#[test]
fn captions_show_the_prompt_and_the_image() {
    let req = caption_request(
        &Some("eye".into()),
        "system",
        "describe",
        &b"Man".to_vec(),
        "image/jpeg",
        300,
    )
    .unwrap();
    assert_eq!(req.model, "eye");
    assert_eq!(req.system, "system");
    assert_eq!(req.max_tokens, 300);
    assert!(!req.json);
    assert_eq!(
        texts(&req.parts),
        vec!["text describe", "image data:image/jpeg;base64,TWFu"]
    );
}

#[test]
fn picks_number_the_images_from_zero() {
    let images = vec![
        (b"M".to_vec(), "image/jpeg".to_string()),
        (b"Ma".to_vec(), "image/png".to_string()),
    ];
    let req = pick_request(&Some("eye".into()), "s", "pick", &images, 9).unwrap();
    assert!(req.json);
    assert_eq!(
        texts(&req.parts),
        vec![
            "text pick",
            "text 候选 0：",
            "image data:image/jpeg;base64,TQ==",
            "text 候选 1：",
            "image data:image/png;base64,TWE=",
        ]
    );
}

#[test]
fn ranks_show_the_label_before_each_image() {
    let items = vec![(
        "id=c001".to_string(),
        b"Man".to_vec(),
        "image/jpeg".to_string(),
    )];
    let req = rank_request(&Some("eye".into()), "s", "rank", &items, 9).unwrap();
    assert!(req.json);
    assert_eq!(
        texts(&req.parts),
        vec![
            "text rank",
            "text id=c001",
            "image data:image/jpeg;base64,TWFu"
        ]
    );
}

#[test]
fn images_need_a_vision_model() {
    let err = caption_request(&None, "s", "u", &vec![], "image/jpeg", 1).unwrap_err();
    assert!(matches!(err, Error::VisionModelNotSet));
    let err = pick_request(&None, "s", "u", &vec![], 1).unwrap_err();
    assert!(matches!(err, Error::VisionModelNotSet));
    let err = rank_request(&None, "s", "u", &vec![], 1).unwrap_err();
    assert_eq!(err.message(), "config.llm.vision_model is not set");
}

#[test]
fn a_pick_needs_images() {
    let err = pick_request(&Some("eye".into()), "s", "u", &vec![], 1).unwrap_err();
    assert!(matches!(err, Error::NoImages));
    assert_eq!(err.message(), "pick_best called with zero images");
}

#[test]
fn answers_are_the_content_of_the_first_choice() {
    assert_eq!(
        chat_content(vec![Some(" a ".into()), Some("b".into())]).unwrap(),
        " a "
    );
    assert!(matches!(chat_content(vec![]), Err(Error::NoChoices)));
    assert!(matches!(
        chat_content(vec![None, Some("b".into())]),
        Err(Error::NullContent)
    ));
    let err = chat_content(vec![Some(" \n".into())]).unwrap_err();
    assert_eq!(err.message(), "LLM returned empty content");
}

#[test]
fn refusals_tell_the_status_and_the_body() {
    let err = Error::refused(
        "Immich",
        "401 Unauthorized",
        "",
        "{\"message\":\"bad token\"}",
    );
    assert_eq!(
        err.message(),
        "Immich returned 401 Unauthorized: {\"message\":\"bad token\"}"
    );
    let err = Error::refused("Immich", "404 Not Found", " for http://x", "gone");
    assert_eq!(err.message(), "Immich returned 404 Not Found for http://x: gone");
}

#[test]
fn failures_keep_their_cause() {
    let err = Error::Backend("timeout".into()).during("failed to fetch thumbnail for a".into());
    assert_eq!(err.message(), "failed to fetch thumbnail for a");
    assert_eq!(
        err.full_message(),
        "failed to fetch thumbnail for a: timeout"
    );
    let again = err.during("search".into());
    assert_eq!(
        again.full_message(),
        "search: failed to fetch thumbnail for a: timeout"
    );
}
