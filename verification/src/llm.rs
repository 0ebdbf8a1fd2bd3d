//! Language models, as the commands see them, and what is sent to them. As with the
//! server, a spec function of each trait says what a model may be asked.
use crate::error::Error;
use crate::text::{
    blank, decimal, is_blank, lemma_trim_empty, numeral, opt_text, strip_trailing, trim,
    without_trailing,
};
use vstd::prelude::*;
use vstd::string::*;

verus! {

/// Answers a chat with a JSON text.
pub trait ChatBackend {
    /// Whether the chat may be sent.
    open spec fn may_chat(&self, messages: Seq<(Seq<char>, Seq<char>)>) -> bool {
        true
    }

    fn chat_json(&self, messages: &Vec<Message>) -> Result<String, Error>
        requires
            self.may_chat(message_views(messages@)),
    ;
}

/// Describes an image.
pub trait CaptionLlm {
    fn caption(
        &self,
        system_prompt: &str,
        user_prompt: &str,
        image_bytes: &Vec<u8>,
        mime: &str,
        max_tokens: u32,
    ) -> Result<String, Error>;
}

/// Compares images and answers with a JSON text.
pub trait MultiImageVisionLlm {
    /// Whether the model may be asked to pick one of the images.
    open spec fn may_pick(
        &self,
        system_prompt: Seq<char>,
        user_prompt: Seq<char>,
        images: Seq<(Seq<u8>, Seq<char>)>,
        max_tokens: u32,
    ) -> bool {
        true
    }

    /// Whether the model may be asked to rank the items.
    open spec fn may_rank(
        &self,
        system_prompt: Seq<char>,
        user_prompt: Seq<char>,
        items: Seq<(Seq<char>, Seq<u8>, Seq<char>)>,
        max_tokens: u32,
    ) -> bool {
        true
    }

    /// Picks one of `images`, each given by its bytes and its MIME type. The
    /// prompt refers to them by index, from 0.
    fn pick_best(
        &self,
        system_prompt: &str,
        user_prompt: &str,
        images: &Vec<(Vec<u8>, String)>,
        max_tokens: u32,
    ) -> Result<String, Error>
        requires
            self.may_pick(system_prompt@, user_prompt@, image_views(images@), max_tokens),
    ;

    /// Ranks `items`, each given by a label, the bytes of an image and its
    /// MIME type.
    fn rank_images(
        &self,
        system_prompt: &str,
        user_prompt: &str,
        items: &Vec<(String, Vec<u8>, String)>,
        max_tokens: u32,
    ) -> Result<String, Error>
        requires
            self.may_rank(system_prompt@, user_prompt@, item_views(items@), max_tokens),
    ;
}

/// The bytes and the MIME type of each image.
pub open spec fn image_views(images: Seq<(Vec<u8>, String)>) -> Seq<(Seq<u8>, Seq<char>)> {
    images.map_values(|i: (Vec<u8>, String)| (i.0@, i.1@))
}

/// The label, the bytes and the MIME type of each item.
pub open spec fn item_views(items: Seq<(String, Vec<u8>, String)>) -> Seq<
    (Seq<char>, Seq<u8>, Seq<char>),
> {
    items.map_values(|i: (String, Vec<u8>, String)| (i.0@, i.1@, i.2@))
}

/// One message of a chat.
#[derive(Debug, Clone)]
pub struct Message {
    pub role: &'static str,
    pub content: String,
}

impl View for Message {
    type V = (Seq<char>, Seq<char>);

    /// The role and the content.
    open spec fn view(&self) -> (Seq<char>, Seq<char>) {
        (self.role@, self.content@)
    }
}

impl Message {
    pub fn system(content: &str) -> (r: Message)
        ensures
            r@ == ("system"@, content@),
    {
        Message { role: "system", content: content.to_owned() }
    }

    pub fn user(content: &str) -> (r: Message)
        ensures
            r@ == ("user"@, content@),
    {
        Message { role: "user", content: content.to_owned() }
    }
}

pub open spec fn message_views(messages: Seq<Message>) -> Seq<(Seq<char>, Seq<char>)> {
    messages.map_values(|m: Message| m@)
}

/// A chat of a system prompt and what the user says.
pub open spec fn dialogue(system: Seq<char>, user: Seq<char>) -> Seq<(Seq<char>, Seq<char>)> {
    seq![("system"@, system), ("user"@, user)]
}

/// The model answered `reply` to a system prompt and what the user says.
pub open spec fn chat_reply<L: ChatBackend>(
    llm: &L,
    system: Seq<char>,
    user: Seq<char>,
    reply: Result<String, Error>,
) -> bool {
    exists|asked: &Vec<Message>|
        message_views(asked@) == dialogue(system, user)
            && #[trigger] call_ensures(L::chat_json, (llm, asked), reply)
}

/// Sends a system prompt and what the user says.
pub fn chat<L: ChatBackend>(llm: &L, system: &str, user: &str) -> (r: Result<String, Error>)
    requires
        llm.may_chat(dialogue(system@, user@)),
    ensures
        chat_reply(llm, system@, user@, r),
{
    let messages: Vec<Message> = vec![Message::system(system), Message::user(user)];
    assert(message_views(messages@) =~= dialogue(system@, user@));
    llm.chat_json(&messages)
}

// ---- requests ---------------------------------------------------------------

/// Where chats are posted.
pub fn chat_url(base_url: &str) -> (r: String)
    ensures
        r@ == strip_trailing(base_url@, '/') + "/v1/chat/completions"@,
{
    let mut out = without_trailing(base_url, '/').to_owned();
    out.append("/v1/chat/completions");
    out
}

/// The base64 digit of a number below 64.
pub open spec fn base64_digit(n: int) -> char {
    "ABCDEFGHIJKLMNOPQRSTUVWXYZabcdefghijklmnopqrstuvwxyz0123456789+/"@[n]
}

/// Base64 with the standard alphabet: three bytes become four digits, and a rest
/// of one or two bytes is padded with `=`.
pub open spec fn base64_text(bytes: Seq<u8>) -> Seq<char>
    decreases bytes.len(),
{
    if bytes.len() == 0 {
        Seq::empty()
    } else {
        let a = bytes[0] as int;
        let b = if bytes.len() > 1 {
            bytes[1] as int
        } else {
            0
        };
        let c = if bytes.len() > 2 {
            bytes[2] as int
        } else {
            0
        };
        let block = seq![
            base64_digit(a / 4),
            base64_digit(a % 4 * 16 + b / 16),
            if bytes.len() > 1 {
                base64_digit(b % 16 * 4 + c / 64)
            } else {
                '='
            },
            if bytes.len() > 2 {
                base64_digit(c % 64)
            } else {
                '='
            },
        ];
        if bytes.len() <= 3 {
            block
        } else {
            block + base64_text(bytes.skip(3))
        }
    }
}

/// `base64::Engine::encode` on `general_purpose::STANDARD`: the base64 text of the
/// bytes, in the standard alphabet and with padding.
#[verifier::external_body]
fn encode_base64(bytes: &Vec<u8>) -> (r: String)
    ensures
        r@ == base64_text(bytes@),
{
    base64::Engine::encode(&base64::engine::general_purpose::STANDARD, bytes)
}

/// `data:MIME;base64,DATA`.
pub open spec fn data_url_of(bytes: Seq<u8>, mime: Seq<char>) -> Seq<char> {
    "data:"@ + mime + ";base64,"@ + base64_text(bytes)
}

/// Writes an image into a URL.
pub fn data_url(bytes: &Vec<u8>, mime: &str) -> (r: String)
    ensures
        r@ == data_url_of(bytes@, mime@),
{
    let mut out = "data:".to_owned();
    out.append(mime);
    out.append(";base64,");
    out.append(encode_base64(bytes).as_str());
    out
}

/// A piece of what the user says: a text, or an image given by its URL.
#[derive(Debug)]
pub enum Part {
    Text(String),
    Image(String),
}

pub ghost enum PartView {
    Text(Seq<char>),
    Image(Seq<char>),
}

impl View for Part {
    type V = PartView;

    open spec fn view(&self) -> PartView {
        match self {
            Part::Text(text) => PartView::Text(text@),
            Part::Image(url) => PartView::Image(url@),
        }
    }
}

pub open spec fn part_views(parts: Seq<Part>) -> Seq<PartView> {
    parts.map_values(|p: Part| p@)
}

/// A request to the vision model: a system prompt, and the parts of what the
/// user says.
#[derive(Debug)]
pub struct VisionRequest {
    pub model: String,
    pub system: String,
    pub parts: Vec<Part>,
    pub max_tokens: u32,
    /// The answer has to be a JSON object.
    pub json: bool,
}

/// `r` asks `model` what the other arguments say.
pub open spec fn is_request(
    r: VisionRequest,
    model: Seq<char>,
    system: Seq<char>,
    parts: Seq<PartView>,
    max_tokens: u32,
    json: bool,
) -> bool {
    &&& r.model@ == model
    &&& r.system@ == system
    &&& part_views(r.parts@) == parts
    &&& r.max_tokens == max_tokens
    &&& r.json == json
}

/// The request for a caption: the prompt, then the image. It fails exactly where
/// no vision model is set.
pub fn caption_request(
    vision_model: &Option<String>,
    system_prompt: &str,
    user_prompt: &str,
    image_bytes: &Vec<u8>,
    mime: &str,
    max_tokens: u32,
) -> (r: Result<VisionRequest, Error>)
    ensures
        match opt_text(*vision_model) {
            None => r matches Err(e) && e is VisionModelNotSet,
            Some(model) => r matches Ok(q) && is_request(
                q,
                model,
                system_prompt@,
                seq![
                    PartView::Text(user_prompt@),
                    PartView::Image(data_url_of(image_bytes@, mime@)),
                ],
                max_tokens,
                false,
            ),
        },
{
    match vision_model {
        None => Err(Error::VisionModelNotSet),
        Some(model) => {
            let parts: Vec<Part> = vec![
                Part::Text(user_prompt.to_owned()),
                Part::Image(data_url(image_bytes, mime)),
            ];
            assert(part_views(parts@) =~= seq![
                PartView::Text(user_prompt@),
                PartView::Image(data_url_of(image_bytes@, mime@)),
            ]);
            Ok(
                VisionRequest {
                    model: model.clone(),
                    system: system_prompt.to_owned(),
                    parts,
                    max_tokens,
                    json: false,
                },
            )
        },
    }
}

/// Each image behind a line that gives its index.
pub open spec fn numbered_images(images: Seq<(Vec<u8>, String)>) -> Seq<PartView>
    decreases images.len(),
{
    if images.len() == 0 {
        Seq::empty()
    } else {
        let last = images.last();
        numbered_images(images.drop_last()).push(
            PartView::Text("候选 "@ + decimal((images.len() - 1) as nat) + "："@),
        ).push(PartView::Image(data_url_of(last.0@, last.1@)))
    }
}

/// The request to pick one of several images: the prompt, then each image behind
/// its index. It fails exactly where no vision model is set or there are no images.
pub fn pick_request(
    vision_model: &Option<String>,
    system_prompt: &str,
    user_prompt: &str,
    images: &Vec<(Vec<u8>, String)>,
    max_tokens: u32,
) -> (r: Result<VisionRequest, Error>)
    ensures
        match opt_text(*vision_model) {
            None => r matches Err(e) && e is VisionModelNotSet,
            Some(model) => if images@.len() == 0 {
                r matches Err(e) && e is NoImages
            } else {
                r matches Ok(q) && is_request(
                    q,
                    model,
                    system_prompt@,
                    seq![PartView::Text(user_prompt@)] + numbered_images(images@),
                    max_tokens,
                    true,
                )
            },
        },
{
    match vision_model {
        None => Err(Error::VisionModelNotSet),
        Some(model) => {
            if images.len() == 0 {
                return Err(Error::NoImages);
            }
            let mut parts: Vec<Part> = vec![Part::Text(user_prompt.to_owned())];
            let ghost head = seq![PartView::Text(user_prompt@)];
            assert(part_views(parts@) =~= head + numbered_images(images@.take(0)));
            let mut i: usize = 0;
            while i < images.len()
                invariant
                    i <= images.len(),
                    part_views(parts@) == head + numbered_images(images@.take(i as int)),
                decreases images.len() - i,
            {
                let ghost known = part_views(parts@);
                let mut label = "候选 ".to_owned();
                label.append(numeral(i as u128).as_str());
                label.append("：");
                parts.push(Part::Text(label));
                parts.push(Part::Image(data_url(&images[i].0, images[i].1.as_str())));
                proof {
                    assert(images@.take(i + 1).drop_last() =~= images@.take(i as int));
                    assert(part_views(parts@) =~= known.push(PartView::Text(label@)).push(
                        PartView::Image(data_url_of(images@[i as int].0@, images@[i as int].1@)),
                    ));
                }
                i += 1;
            }
            assert(images@.take(images@.len() as int) =~= images@);
            Ok(
                VisionRequest {
                    model: model.clone(),
                    system: system_prompt.to_owned(),
                    parts,
                    max_tokens,
                    json: true,
                },
            )
        },
    }
}

/// Each image behind its label.
pub open spec fn labelled_images(items: Seq<(String, Vec<u8>, String)>) -> Seq<PartView>
    decreases items.len(),
{
    if items.len() == 0 {
        Seq::empty()
    } else {
        let last = items.last();
        labelled_images(items.drop_last()).push(PartView::Text(last.0@)).push(
            PartView::Image(data_url_of(last.1@, last.2@)),
        )
    }
}

/// The request to rank images: the prompt, then each image behind its label. It
/// fails exactly where no vision model is set.
pub fn rank_request(
    vision_model: &Option<String>,
    system_prompt: &str,
    user_prompt: &str,
    items: &Vec<(String, Vec<u8>, String)>,
    max_tokens: u32,
) -> (r: Result<VisionRequest, Error>)
    ensures
        match opt_text(*vision_model) {
            None => r matches Err(e) && e is VisionModelNotSet,
            Some(model) => r matches Ok(q) && is_request(
                q,
                model,
                system_prompt@,
                seq![PartView::Text(user_prompt@)] + labelled_images(items@),
                max_tokens,
                true,
            ),
        },
{
    match vision_model {
        None => Err(Error::VisionModelNotSet),
        Some(model) => {
            let mut parts: Vec<Part> = vec![Part::Text(user_prompt.to_owned())];
            let ghost head = seq![PartView::Text(user_prompt@)];
            assert(part_views(parts@) =~= head + labelled_images(items@.take(0)));
            let mut i: usize = 0;
            while i < items.len()
                invariant
                    i <= items.len(),
                    part_views(parts@) == head + labelled_images(items@.take(i as int)),
                decreases items.len() - i,
            {
                let ghost known = part_views(parts@);
                let item = &items[i];
                parts.push(Part::Text(item.0.clone()));
                parts.push(Part::Image(data_url(&item.1, item.2.as_str())));
                proof {
                    assert(items@.take(i + 1).drop_last() =~= items@.take(i as int));
                    assert(part_views(parts@) =~= known.push(PartView::Text(item.0@)).push(
                        PartView::Image(data_url_of(item.1@, item.2@)),
                    ));
                }
                i += 1;
            }
            assert(items@.take(items@.len() as int) =~= items@);
            Ok(
                VisionRequest {
                    model: model.clone(),
                    system: system_prompt.to_owned(),
                    parts,
                    max_tokens,
                    json: true,
                },
            )
        },
    }
}

// ---- answers ----------------------------------------------------------------

/// Takes the content of the first choice. There may be no choice; the content may
/// be missing, as a reasoning model leaves it when it runs out of tokens; or it
/// may be blank. Each of these is a failure of its own.
pub fn chat_content(choices: Vec<Option<String>>) -> (r: Result<String, Error>)
    ensures
        if choices@.len() == 0 {
            r matches Err(e) && e is NoChoices
        } else {
            match opt_text(choices@[0]) {
                None => r matches Err(e) && e is NullContent,
                Some(content) => if is_blank(content) {
                    r matches Err(e) && e is EmptyContent
                } else {
                    r matches Ok(text) && text@ == content
                },
            }
        },
{
    if choices.len() == 0 {
        return Err(Error::NoChoices);
    }
    match &choices[0] {
        None => Err(Error::NullContent),
        Some(content) => {
            if blank(content.as_str()) {
                return Err(Error::EmptyContent);
            }
            Ok(content.clone())
        },
    }
}

// ---- what holds of requests -------------------------------------------------

/// Image `i` of a pick stands behind the line that gives its index, in the order of the
/// images.
pub proof fn law_images_are_numbered(images: Seq<(Vec<u8>, String)>, i: int)
    requires
        0 <= i < images.len(),
    ensures
        numbered_images(images).len() == 2 * images.len(),
        numbered_images(images)[2 * i] == PartView::Text("候选 "@ + decimal(i as nat) + "："@),
        numbered_images(images)[2 * i + 1] == PartView::Image(
            "data:"@ + images[i].1@ + ";base64,"@ + base64_text(images[i].0@),
        ),
    decreases images.len(),
{
    let past = images.drop_last();
    if past.len() == 0 {
        assert(numbered_images(past).len() == 0);
    } else if i < past.len() {
        law_images_are_numbered(past, i);
        assert(past[i] == images[i]);
    } else {
        law_images_are_numbered(past, 0);
    }
}

/// Image `i` of a ranking stands behind its own label, in the order of the items.
pub proof fn law_images_are_labelled(items: Seq<(String, Vec<u8>, String)>, i: int)
    requires
        0 <= i < items.len(),
    ensures
        labelled_images(items).len() == 2 * items.len(),
        labelled_images(items)[2 * i] == PartView::Text(items[i].0@),
        labelled_images(items)[2 * i + 1] == PartView::Image(
            "data:"@ + items[i].2@ + ";base64,"@ + base64_text(items[i].1@),
        ),
    decreases items.len(),
{
    let past = items.drop_last();
    if past.len() == 0 {
        assert(labelled_images(past).len() == 0);
    } else if i < past.len() {
        law_images_are_labelled(past, i);
        assert(past[i] == items[i]);
    } else {
        law_images_are_labelled(past, 0);
    }
}

/// A request carries the model, the prompts, the parts and the budget as they are.
pub proof fn law_request_carries_its_parts(
    r: VisionRequest,
    model: Seq<char>,
    system: Seq<char>,
    parts: Seq<PartView>,
    max_tokens: u32,
    json: bool,
    i: int,
)
    requires
        is_request(r, model, system, parts, max_tokens, json),
    ensures
        r.model@ == model,
        r.system@ == system,
        r.max_tokens == max_tokens,
        r.json == json,
        r.parts@.len() == parts.len(),
        0 <= i < parts.len() ==> (match r.parts@[i] {
            Part::Text(t) => parts[i] == PartView::Text(t@),
            Part::Image(u) => parts[i] == PartView::Image(u@),
        }),
{
    assert(part_views(r.parts@).len() == r.parts@.len());
    if 0 <= i < parts.len() {
        assert(part_views(r.parts@)[i] == r.parts@[i]@);
    }
}

/// A chat is the system prompt and, behind it, what the user says.
pub proof fn law_dialogue(system: Seq<char>, user: Seq<char>)
    ensures
        dialogue(system, user).len() == 2,
        dialogue(system, user)[0] == ("system"@, system),
        dialogue(system, user)[1] == ("user"@, user),
{
}

/// A request to pick or to rank sends the prompts and all images, each with its index or its
/// label before it, to the vision model; a caption sends one image.
pub proof fn law_what_is_sent(
    vision_model: &Option<String>,
    system: &str,
    user: &str,
    images: &Vec<(Vec<u8>, String)>,
    items: &Vec<(String, Vec<u8>, String)>,
    max_tokens: u32,
    pick: Result<VisionRequest, Error>,
    rank: Result<VisionRequest, Error>,
    i: int,
)
    requires
        call_ensures(pick_request, (vision_model, system, user, images, max_tokens), pick),
        call_ensures(rank_request, (vision_model, system, user, items, max_tokens), rank),
        vision_model is Some,
        images@.len() > 0,
    ensures
        pick is Ok,
        rank is Ok,
        pick->Ok_0.model@ == vision_model->0@,
        rank->Ok_0.model@ == vision_model->0@,
        pick->Ok_0.system@ == system@,
        rank->Ok_0.system@ == system@,
        pick->Ok_0.max_tokens == max_tokens,
        rank->Ok_0.max_tokens == max_tokens,
        pick->Ok_0.json && rank->Ok_0.json,
        pick->Ok_0.parts@.len() == 1 + 2 * images@.len(),
        rank->Ok_0.parts@.len() == 1 + 2 * items@.len(),
        pick->Ok_0.parts@[0]@ == PartView::Text(user@),
        rank->Ok_0.parts@[0]@ == PartView::Text(user@),
        0 <= i < images@.len() ==> pick->Ok_0.parts@[2 * i + 2]@ == PartView::Image(
            "data:"@ + images@[i].1@ + ";base64,"@ + base64_text(images@[i].0@),
        ),
        0 <= i < items@.len() ==> rank->Ok_0.parts@[2 * i + 1]@ == PartView::Text(items@[i].0@)
            && rank->Ok_0.parts@[2 * i + 2]@ == PartView::Image(
            "data:"@ + items@[i].2@ + ";base64,"@ + base64_text(items@[i].1@),
        ),
{
    let p = part_views(pick->Ok_0.parts@);
    let r = part_views(rank->Ok_0.parts@);
    assert(p.len() == pick->Ok_0.parts@.len());
    assert(r.len() == rank->Ok_0.parts@.len());
    law_images_are_numbered(images@, 0);
    assert(p[0] == pick->Ok_0.parts@[0]@);
    assert(r[0] == rank->Ok_0.parts@[0]@);
    if 0 <= i < images@.len() {
        law_images_are_numbered(images@, i);
        assert(p[2 * i + 2] == pick->Ok_0.parts@[2 * i + 2]@);
    }
    if items@.len() > 0 {
        law_images_are_labelled(items@, 0);
    }
    if 0 <= i < items@.len() {
        law_images_are_labelled(items@, i);
        assert(r[2 * i + 1] == rank->Ok_0.parts@[2 * i + 1]@);
        assert(r[2 * i + 2] == rank->Ok_0.parts@[2 * i + 2]@);
    }
}

/// The answer of a model is the content of its first choice, where that is not blank.
pub proof fn law_answer_is_the_first_choice(choices: Vec<Option<String>>, r: Result<String, Error>)
    requires
        call_ensures(chat_content, (choices,), r),
    ensures
        choices@.len() > 0 && choices@[0] is Some && trim(choices@[0]->0@).len() > 0 ==> r is Ok
            && r->Ok_0@ == choices@[0]->0@,
        choices@.len() == 0 ==> r is Err,
        choices@.len() > 0 && choices@[0] is None ==> r is Err,
        choices@.len() > 0 && choices@[0] is Some && trim(choices@[0]->0@).len() == 0 ==> r is Err,
{
    if choices@.len() > 0 && choices@[0] is Some {
        lemma_trim_empty(choices@[0]->0@);
    }
}

} // verus!
