//! Translation by a local language model that is asked over HTTP.
//!
//! The requests and the judgement of the replies stand here; sending them does not.
use crate::msg::UiMsg;
use crate::text::{self, chars_of, decimal_of, same, string_of, trim};
use crate::transcribe::{self, LineModel, TranscriptLine};
use std::collections::VecDeque;
use vstd::prelude::*;
use vstd::string::*;

verus! {

/// How many translated pairs are shown to the model as examples.
pub const CONTEXT_PAIRS: usize = 3;

/// A source text with its language and its translation.
pub type PairModel = (Seq<char>, Seq<char>, Seq<char>);

/// The last translated lines, oldest first: language of the source, source text,
/// translation.
pub struct ContextWindow {
    pub pairs: VecDeque<(String, String, String)>,
}

impl View for ContextWindow {
    type V = Seq<PairModel>;

    open spec fn view(&self) -> Seq<PairModel> {
        Seq::new(
            self.pairs@.len(),
            |i: int| (self.pairs@[i].0@, self.pairs@[i].1@, self.pairs@[i].2@),
        )
    }
}

/// The last `n` entries.
pub open spec fn last_of<A>(s: Seq<A>, n: nat) -> Seq<A> {
    if s.len() <= n {
        s
    } else {
        s.skip(s.len() - n)
    }
}

/// The pairs in one direction, as source and translation, in order.
pub open spec fn history(pairs: Seq<PairModel>, lang: Seq<char>) -> Seq<(Seq<char>, Seq<char>)>
    decreases pairs.len(),
{
    if pairs.len() == 0 {
        Seq::empty()
    } else {
        let before = history(pairs.drop_last(), lang);
        if pairs.last().0 == lang {
            before.push((pairs.last().1, pairs.last().2))
        } else {
            before
        }
    }
}

/// The characters of a list of pairs.
pub open spec fn slice_pairs(v: Seq<(&str, &str)>) -> Seq<(Seq<char>, Seq<char>)> {
    Seq::new(v.len(), |i: int| (v[i].0@, v[i].1@))
}

impl ContextWindow {
    pub fn new() -> (r: Self)
        ensures
            r@ == Seq::<PairModel>::empty(),
    {
        let r = ContextWindow { pairs: VecDeque::new() };
        assert(r@ =~= Seq::<PairModel>::empty());
        r
    }

    /// Adds a pair; the oldest ones leave where there are too many.
    pub fn push(&mut self, src_lang: &str, src: &str, dst: &str)
        ensures
            final(self)@ == last_of(
                old(self)@.push((src_lang@, src@, dst@)),
                CONTEXT_PAIRS as nat,
            ),
    {
        let ghost all = self@.push((src_lang@, src@, dst@));
        self.pairs.push_back((src_lang.to_owned(), src.to_owned(), dst.to_owned()));
        assert(self@ =~= all);
        let ghost mut gone: int = 0;
        assert(all.skip(0) =~= all);
        while self.pairs.len() > CONTEXT_PAIRS
            invariant
                0 <= gone <= all.len(),
                self@ == all.skip(gone),
                self.pairs@.len() == all.len() - gone,
                gone > 0 ==> self.pairs@.len() >= CONTEXT_PAIRS,
            decreases self.pairs@.len(),
        {
            let ghost before = self@;
            let _ = self.pairs.pop_front();
            assert(self@ =~= before.skip(1));
            assert(before.skip(1) =~= all.skip(gone + 1));
            proof {
                gone = gone + 1;
            }
        }
        assert(self@ =~= last_of(all, CONTEXT_PAIRS as nat));
    }

    /// Prior pairs in the same direction, oldest first, as (source, translation).
    /// Same-direction only: mixed directions would contradict the system prompt and
    /// thrash the server's prompt cache.
    pub fn history_for(&self, src_lang: &str) -> (r: Vec<(&str, &str)>)
        ensures
            slice_pairs(r@) == history(self@, src_lang@),
    {
        let mut r: Vec<(&str, &str)> = Vec::new();
        let mut i: usize = 0;
        while i < self.pairs.len()
            invariant
                i <= self.pairs@.len(),
                slice_pairs(r@) == history(self@.take(i as int), src_lang@),
            decreases self.pairs@.len() - i,
        {
            assert(self@.take(i + 1).drop_last() =~= self@.take(i as int));
            let ghost before = r@;
            if same(self.pairs[i].0.as_str(), src_lang) {
                r.push((self.pairs[i].1.as_str(), self.pairs[i].2.as_str()));
                assert(slice_pairs(r@) =~= slice_pairs(before).push(
                    (self@[i as int].1, self@[i as int].2),
                ));
            }
            i += 1;
        }
        assert(self@.take(self.pairs@.len() as int) =~= self@);
        r
    }
}

/// How the translation server is run. Paths are given as text.
pub struct TranslatorConfig {
    pub binary: String,
    pub model_path: String,
    pub port: u16,
    pub n_ctx: u32,
    pub max_new_tokens: u32,
    pub startup_timeout_secs: u64,
    pub log_dir: String,
}

impl Clone for TranslatorConfig {
    fn clone(&self) -> (r: Self)
        ensures
            r == *self,
    {
        TranslatorConfig {
            binary: self.binary.clone(),
            model_path: self.model_path.clone(),
            port: self.port,
            n_ctx: self.n_ctx,
            max_new_tokens: self.max_new_tokens,
            startup_timeout_secs: self.startup_timeout_secs,
            log_dir: self.log_dir.clone(),
        }
    }
}

/// How the instructions to the model begin.
pub const PROMPT_ROLE: &'static str =
    "You are a professional simultaneous interpreter translating ";

/// The rules up to the one on the output language.
pub const PROMPT_RULES: &'static str = ".\n\
Rules:\n\
- Output ONLY the translation. No explanations, no quotes, no prefixes.\n\
- The output MUST be written in ";

/// The rules behind the one on the output language.
pub const PROMPT_TAIL: &'static str = "\n\
- If the input is a sentence fragment (no period, cut mid-thought), translate it as a fragment. Do NOT pad or complete.\n\
- Preserve tone: formal stays formal, casual stays casual.\n\
- Keep proper nouns, technical terms, and numbers exact.\n\
- Match punctuation style of the target language.";

/// The rule for English output.
pub const ENGLISH_ONLY: &'static str =
    "English only. Never output Japanese, Chinese, or any other language.";

/// The rule for Japanese output.
pub const JAPANESE_ONLY: &'static str =
    "Japanese only. Never output Korean (Hangul), Simplified or Traditional Chinese. Use hiragana, katakana, and Japanese-style kanji; do NOT output Hangul, Chinese-only characters, or Pinyin.";

/// The instructions for a source language: Japanese is put into English, anything
/// else into Japanese.
pub open spec fn prompt_for(src_lang: Seq<char>) -> Seq<char> {
    if src_lang == "ja"@ {
        PROMPT_ROLE@ + "from Japanese to English"@ + PROMPT_RULES@ + ENGLISH_ONLY@ + PROMPT_TAIL@
    } else {
        PROMPT_ROLE@ + "from English to Japanese"@ + PROMPT_RULES@ + JAPANESE_ONLY@ + PROMPT_TAIL@
    }
}

/// The instructions for a source language.
pub fn system_prompt(src_lang: &str) -> (r: String)
    ensures
        r@ == prompt_for(src_lang@),
        src_lang@ == "ja"@ ==> r@
            == "You are a professional simultaneous interpreter translating "@ + "from Japanese to English.\nRules:\n- Output ONLY the translation. No explanations, no quotes, no prefixes.\n- The output MUST be written in English only. Never output Japanese, Chinese, or any other language.\n- If the input is a sentence fragment (no period, cut mid-thought), translate it as a fragment. Do NOT pad or complete.\n- Preserve tone: formal stays formal, casual stays casual.\n- Keep proper nouns, technical terms, and numbers exact.\n- Match punctuation style of the target language."@,
        src_lang@ != "ja"@ ==> r@
            == "You are a professional simultaneous interpreter translating "@ + "from English to Japanese.\nRules:\n- Output ONLY the translation. No explanations, no quotes, no prefixes.\n- The output MUST be written in Japanese only. Never output Korean (Hangul), Simplified or Traditional Chinese. Use hiragana, katakana, and Japanese-style kanji; do NOT output Hangul, Chinese-only characters, or Pinyin.\n- If the input is a sentence fragment (no period, cut mid-thought), translate it as a fragment. Do NOT pad or complete.\n- Preserve tone: formal stays formal, casual stays casual.\n- Keep proper nouns, technical terms, and numbers exact.\n- Match punctuation style of the target language."@,
{
    proof {
        prompt_demands_the_target(src_lang@);
    }
    let ja = same(src_lang, "ja");
    let mut r = PROMPT_ROLE.to_owned();
    r.append(if ja { "from Japanese to English" } else { "from English to Japanese" });
    r.append(PROMPT_RULES);
    r.append(if ja { ENGLISH_ONLY } else { JAPANESE_ONLY });
    r.append(PROMPT_TAIL);
    r
}

/// The least number of tokens that is asked for.
pub const MIN_TOKENS: u32 = 48;

/// The cap on the tokens of a reply: two for each character and sixteen more,
/// within the floor and the larger of floor and `cap`.
pub open spec fn token_cap(len: nat, cap: u32) -> int {
    let wanted = len * 2 + 16;
    let top = if cap < MIN_TOKENS {
        MIN_TOKENS as int
    } else {
        cap as int
    };
    if wanted < MIN_TOKENS {
        MIN_TOKENS as int
    } else if wanted > top {
        top
    } else {
        wanted as int
    }
}

/// Generation cap proportional to the input: short fragments never need the full
/// budget, and a tight cap stops repetition loops from burning the GPU.
pub fn max_tokens_for(text: &str, cap: u32) -> (r: u32)
    ensures
        r == token_cap(text@.len(), cap),
{
    let count: usize = text.unicode_len();
    let top: u32 = if cap < MIN_TOKENS {
        MIN_TOKENS
    } else {
        cap
    };
    if count > 0x7fff_ffff {
        return top;
    }
    let wanted: u64 = count as u64 * 2 + 16;
    if wanted < MIN_TOKENS as u64 {
        MIN_TOKENS
    } else if wanted > top as u64 {
        top
    } else {
        wanted as u32
    }
}

/// Characters that exist only as Simplified Chinese forms, never in Japanese.
pub const SIMPLIFIED_ONLY: &'static str =
    "们这说话时现见关车长门问读汉译应给让还么吗呢吧头买卖为发样边过别帮请";

/// Hangul: syllables, conjoining, compatibility and extended Jamo.
pub open spec fn is_hangul(c: char) -> bool {
    let n = c as u32;
    ||| 0xAC00 <= n <= 0xD7A3
    ||| 0x1100 <= n <= 0x11FF
    ||| 0x3130 <= n <= 0x318F
    ||| 0xA960 <= n <= 0xA97F
    ||| 0xD7B0 <= n <= 0xD7FF
}

/// Hiragana or Katakana.
pub open spec fn is_kana(c: char) -> bool {
    0x3040 <= c as u32 <= 0x30FF
}

/// A unified ideograph.
pub open spec fn is_han(c: char) -> bool {
    0x4E00 <= c as u32 <= 0x9FFF
}

/// Whether some character of the text is Hangul.
pub open spec fn hangul_in(text: Seq<char>) -> bool {
    exists|i: int| 0 <= i < text.len() && is_hangul(#[trigger] text[i])
}

/// Whether some character of the text is kana.
pub open spec fn kana_in(text: Seq<char>) -> bool {
    exists|i: int| 0 <= i < text.len() && is_kana(#[trigger] text[i])
}

/// Whether some character of the text is Simplified Chinese only.
pub open spec fn simplified_in(text: Seq<char>) -> bool {
    exists|i: int| 0 <= i < text.len() && SIMPLIFIED_ONLY@.contains(#[trigger] text[i])
}

/// How many characters of the text are ideographs.
pub open spec fn han_count(text: Seq<char>) -> nat
    decreases text.len(),
{
    if text.len() == 0 {
        0
    } else {
        han_count(text.drop_last()) + if is_han(text.last()) {
            1nat
        } else {
            0nat
        }
    }
}

/// The output is in the wrong language: it holds Hangul, or it should be Japanese
/// and holds a character of Simplified Chinese, or six ideographs and no kana.
pub open spec fn off_target(target_is_ja: bool, text: Seq<char>) -> bool {
    ||| hangul_in(text)
    ||| target_is_ja && simplified_in(text)
    ||| target_is_ja && !kana_in(text) && han_count(text) >= 6
}

/// Any Hangul: Korean never belongs in either translation direction, so it is
/// always a leak.
pub fn has_hangul(text: &str) -> (r: bool)
    ensures
        r == hangul_in(text@),
{
    for c in it: text.chars()
        invariant
            it.seq() == text@,
            forall|i: int| 0 <= i < it.index() ==> !is_hangul(#[trigger] text@[i]),
    {
        let n: u32 = c as u32;
        if (0xAC00 <= n && n <= 0xD7A3) || (0x1100 <= n && n <= 0x11FF) || (0x3130 <= n && n
            <= 0x318F) || (0xA960 <= n && n <= 0xA97F) || (0xD7B0 <= n && n <= 0xD7FF) {
            assert(is_hangul(text@[it.index()]));
            return true;
        }
    }
    false
}

/// Whether the character is Simplified Chinese only.
fn is_simplified(c: char) -> (r: bool)
    ensures
        r == SIMPLIFIED_ONLY@.contains(c),
{
    let list = SIMPLIFIED_ONLY;
    for d in it: list.chars()
        invariant
            it.seq() == list@,
            list@ == SIMPLIFIED_ONLY@,
            forall|i: int| 0 <= i < it.index() ==> list@[i] != c,
    {
        if d == c {
            assert(list@[it.index()] == c);
            return true;
        }
    }
    false
}

/// Heuristic: the output is in the wrong language for the target. Catches Korean
/// (Hangul) in either direction and Chinese in the Japanese direction.
pub fn looks_off_target(target_is_ja: bool, text: &str) -> (r: bool)
    ensures
        r == off_target(target_is_ja, text@),
{
    // A Korean leak self-perpetuates once it enters the context history, so flag it
    // regardless of direction.
    if has_hangul(text) {
        return true;
    }
    if !target_is_ja {
        return false;
    }
    let mut has_kana = false;
    let mut han: usize = 0;
    for c in it: text.chars()
        invariant
            it.seq() == text@,
            !hangul_in(text@),
            target_is_ja,
            forall|i: int|
                0 <= i < it.index() ==> !SIMPLIFIED_ONLY@.contains(#[trigger] text@[i]),
            has_kana == exists|i: int| 0 <= i < it.index() && is_kana(#[trigger] text@[i]),
            han as int == if han_count(text@.take(it.index())) < 6 {
                han_count(text@.take(it.index())) as int
            } else {
                6
            },
    {
        let ghost k = it.index();
        assert(text@.take(k + 1).drop_last() =~= text@.take(k));
        if is_simplified(c) {
            assert(SIMPLIFIED_ONLY@.contains(text@[k]));
            return true;
        }
        let n: u32 = c as u32;
        if 0x3040 <= n && n <= 0x30FF {
            assert(is_kana(text@[k]));
            has_kana = true;
        }
        if 0x4E00 <= n && n <= 0x9FFF && han < 6 {
            han += 1;
        }
    }
    assert(text@.take(text@.len() as int) =~= text@);
    // Real Japanese sentences of any length virtually always contain kana.
    !has_kana && han >= 6
}

/// Who says a turn of a chat.
#[derive(Clone, Copy, Debug, PartialEq, Eq, Structural)]
pub enum Role {
    System,
    User,
    Assistant,
}

/// The name of a role in a request.
pub open spec fn role_text(role: Role) -> Seq<char> {
    match role {
        Role::System => "system"@,
        Role::User => "user"@,
        Role::Assistant => "assistant"@,
    }
}

impl Role {
    /// The name of the role in a request.
    pub fn name(&self) -> (r: &'static str)
        ensures
            r@ == role_text(*self),
    {
        match self {
            Role::System => "system",
            Role::User => "user",
            Role::Assistant => "assistant",
        }
    }
}

/// A turn of a chat.
pub struct ChatMessage {
    pub role: Role,
    pub content: String,
}

/// A turn of a chat: who, and what.
pub type TurnModel = (Role, Seq<char>);

/// The turns of a list of messages.
pub open spec fn turns(v: Seq<ChatMessage>) -> Seq<TurnModel> {
    Seq::new(v.len(), |i: int| (v[i].role, v[i].content@))
}

/// What is asked of the model. The temperature is given in tenths.
pub struct ChatRequest {
    pub messages: Vec<ChatMessage>,
    pub max_tokens: u32,
    pub temperature_tenths: u32,
}

/// The contents of a [`ChatRequest`].
pub struct RequestModel {
    pub turns: Seq<TurnModel>,
    pub max_tokens: int,
    pub temperature_tenths: int,
}

impl View for ChatRequest {
    type V = RequestModel;

    open spec fn view(&self) -> RequestModel {
        RequestModel {
            turns: turns(self.messages@),
            max_tokens: self.max_tokens as int,
            temperature_tenths: self.temperature_tenths as int,
        }
    }
}

fn add_turn(messages: &mut Vec<ChatMessage>, role: Role, content: &str)
    ensures
        turns(final(messages)@) == turns(old(messages)@).push((role, content@)),
{
    messages.push(ChatMessage { role, content: content.to_owned() });
    assert(turns(messages@) =~= turns(old(messages)@).push((role, content@)));
}

/// The examples as turns: each source by the user, each translation by the model.
pub open spec fn example_turns(pairs: Seq<(Seq<char>, Seq<char>)>) -> Seq<TurnModel>
    decreases pairs.len(),
{
    if pairs.len() == 0 {
        Seq::empty()
    } else {
        example_turns(pairs.drop_last()).push((Role::User, pairs.last().0)).push(
            (Role::Assistant, pairs.last().1),
        )
    }
}

/// The turns with which a line is sent: the instructions, the examples in the same
/// direction, and the text.
pub open spec fn translation_turns(
    lang: Seq<char>,
    text: Seq<char>,
    context: Seq<PairModel>,
) -> Seq<TurnModel> {
    (seq![(Role::System, prompt_for(lang))] + example_turns(history(context, lang))).push(
        (Role::User, text),
    )
}

/// The request with which a line is sent.
pub open spec fn translation_request_of(
    line: LineModel,
    context: Seq<PairModel>,
    max_new_tokens: u32,
) -> RequestModel {
    RequestModel {
        turns: translation_turns(line.src_lang, line.text, context),
        max_tokens: token_cap(line.text.len(), max_new_tokens),
        temperature_tenths: 2,
    }
}

/// The first request for a line. The instructions and the old pairs form a stable
/// prefix, so the server's prompt cache hits instead of reprocessing every request.
pub fn translation_request(
    line: &TranscriptLine,
    context: &ContextWindow,
    max_new_tokens: u32,
) -> (r: ChatRequest)
    ensures
        r@ == translation_request_of(line@, context@, max_new_tokens),
{
    let lang = line.src_lang.as_str();
    let mut messages: Vec<ChatMessage> = Vec::new();
    let prompt = system_prompt(lang);
    assert(turns(messages@) =~= Seq::<TurnModel>::empty());
    add_turn(&mut messages, Role::System, prompt.as_str());
    let pairs = context.history_for(lang);
    let ghost examples = history(context@, lang@);
    let ghost first = seq![(Role::System, prompt_for(lang@))];
    assert(turns(messages@) =~= first + example_turns(examples.take(0)));
    let mut i: usize = 0;
    while i < pairs.len()
        invariant
            i <= pairs@.len(),
            slice_pairs(pairs@) == examples,
            turns(messages@) == first + example_turns(examples.take(i as int)),
        decreases pairs@.len() - i,
    {
        assert(examples.take(i + 1).drop_last() =~= examples.take(i as int));
        assert(examples[i as int] == (pairs@[i as int].0@, pairs@[i as int].1@));
        add_turn(&mut messages, Role::User, pairs[i].0);
        add_turn(&mut messages, Role::Assistant, pairs[i].1);
        assert(turns(messages@) =~= first + example_turns(examples.take(i + 1)));
        i += 1;
    }
    assert(examples.take(pairs@.len() as int) =~= examples);
    add_turn(&mut messages, Role::User, line.text.as_str());
    ChatRequest {
        messages,
        max_tokens: max_tokens_for(line.text.as_str(), max_new_tokens),
        temperature_tenths: 2,
    }
}

/// A translation, and whether it is still in the wrong language.
pub struct Translation {
    pub text: String,
    pub off_target: bool,
}

/// Asks for Japanese again.
pub const FIX_JAPANESE: &'static str =
    "That was not Japanese. Rewrite it as natural Japanese using hiragana, katakana, and Japanese kanji — never Korean or Chinese. Output only the Japanese translation.";

/// Asks for English again.
pub const FIX_ENGLISH: &'static str =
    "That was not English. Rewrite it as natural English. Output only the English translation.";

/// What to do with the first reply.
pub enum FirstReply {
    /// The reply is the translation.
    Accept(Translation),
    /// The reply leaked another language: ask once more.
    Retry { request: ChatRequest, text: String },
}

/// The corrective request: the turns so far stay a prefix, the bad answer and a
/// fix-it turn follow, and a higher temperature breaks the greedy-decoding rut.
pub open spec fn retry_request_of(
    request: RequestModel,
    target_is_ja: bool,
    text: Seq<char>,
) -> RequestModel {
    RequestModel {
        turns: request.turns.push((Role::Assistant, text)).push(
            (
                Role::User,
                if target_is_ja {
                    FIX_JAPANESE@
                } else {
                    FIX_ENGLISH@
                },
            ),
        ),
        temperature_tenths: 7,
        ..request
    }
}

/// Judges the first reply to a request for a line in this language.
pub fn after_first_reply(src_lang: &str, request: ChatRequest, text: String) -> (r: FirstReply)
    ensures
        match r {
            FirstReply::Accept(t) => {
                &&& !off_target(src_lang@ != "ja"@, text@)
                &&& t.text@ == text@
                &&& !t.off_target
            },
            FirstReply::Retry { request: again, text: kept } => {
                &&& off_target(src_lang@ != "ja"@, text@)
                &&& kept@ == text@
                &&& again@ == retry_request_of(request@, src_lang@ != "ja"@, text@)
            },
        },
{
    let target_is_ja = !same(src_lang, "ja");
    if !looks_off_target(target_is_ja, text.as_str()) {
        return FirstReply::Accept(Translation { text, off_target: false });
    }
    let mut messages = request.messages;
    add_turn(&mut messages, Role::Assistant, text.as_str());
    add_turn(
        &mut messages,
        Role::User,
        if target_is_ja {
            FIX_JAPANESE
        } else {
            FIX_ENGLISH
        },
    );
    FirstReply::Retry {
        request: ChatRequest {
            messages,
            max_tokens: request.max_tokens,
            temperature_tenths: 7,
        },
        text,
    }
}

/// Judges the reply to the corrective request: an empty one leaves the first reply,
/// which is known to be off target.
pub fn after_retry(src_lang: &str, text: String, retry: String) -> (r: Translation)
    ensures
        retry@.len() == 0 ==> r.text@ == text@ && r.off_target,
        retry@.len() > 0 ==> r.text@ == retry@ && r.off_target == off_target(
            src_lang@ != "ja"@,
            retry@,
        ),
{
    if retry.as_str().is_empty() {
        return Translation { text, off_target: true };
    }
    let target_is_ja = !same(src_lang, "ja");
    let still_off = looks_off_target(target_is_ja, retry.as_str());
    Translation { text: retry, off_target: still_off }
}

/// The error of serde_json.
#[verifier::external_type_specification]
#[verifier::external_body]
pub struct ExJsonError(serde_json::Error);

/// The string that serde_json finds in a document under `outer`, the item `index`
/// of it, `inner` and `leaf`: nothing when the text is no JSON, and no string when
/// the path does not lead to one.
pub uninterp spec fn json_string(
    body: Seq<char>,
    outer: Seq<char>,
    index: int,
    inner: Seq<char>,
    leaf: Seq<char>,
) -> Option<Option<Seq<char>>>;

/// `from_str` of serde_json into a `Value`, then `Value::get` along the path and
/// `Value::as_str`: what comes back depends on the text and the path alone.
#[verifier::external_body]
fn json_string_at(body: &str, outer: &str, index: usize, inner: &str, leaf: &str) -> (r: Result<
    Option<String>,
    serde_json::Error,
>)
    ensures
        match r {
            Ok(s) => json_string(body@, outer@, index as int, inner@, leaf@) == Some(
                text::opt_str(s),
            ),
            Err(_) => json_string(body@, outer@, index as int, inner@, leaf@) is None,
        },
{
    let value: serde_json::Value = serde_json::from_str(body)?;
    Ok(
        value.get(outer).and_then(|v| v.get(index)).and_then(|v| v.get(inner)).and_then(
            |v| v.get(leaf),
        ).and_then(|v| v.as_str()).map(str::to_string),
    )
}

/// A reply that is no JSON.
pub struct BadReply {
    pub cause: serde_json::Error,
}

/// The content of the first choice of a reply, as it stands in the document.
pub open spec fn reply_content(body: Seq<char>) -> Option<Option<Seq<char>>> {
    json_string(body, "choices"@, 0, "message"@, "content"@)
}

/// The text of a reply: the content without white space around it, or nothing
/// where the reply holds none.
pub open spec fn reply_text(content: Option<Seq<char>>) -> Seq<char> {
    match content {
        Some(s) => text::trimmed(s),
        None => Seq::empty(),
    }
}

/// The text of the reply whose content was found to be this.
pub fn clean_reply(content: Option<String>) -> (r: String)
    ensures
        r@ == reply_text(text::opt_str(content)),
{
    match content {
        Some(s) => trim(s.as_str()),
        None => String::new(),
    }
}

/// The text of a reply of the chat endpoint.
pub fn chat_reply(body: &str) -> (r: Result<String, BadReply>)
    ensures
        match r {
            Ok(s) => reply_content(body@) is Some && s@ == reply_text(reply_content(body@)->0),
            Err(_) => reply_content(body@) is None,
        },
{
    match json_string_at(body, "choices", 0, "message", "content") {
        Ok(content) => Ok(clean_reply(content)),
        Err(cause) => Err(BadReply { cause }),
    }
}

/// Where the server listens, up to the port.
pub const SERVER_URL: &'static str = "http://127.0.0.1:";

/// The address at which the server tells whether it is ready.
pub fn health_url(port: u16) -> (r: String)
    ensures
        r@ == SERVER_URL@ + text::decimal(port as nat) + "/health"@,
{
    let mut r = SERVER_URL.to_owned();
    r.append(decimal_of(port as u64).as_str());
    r.append("/health");
    r
}

/// The address that takes chat requests.
pub fn chat_url(port: u16) -> (r: String)
    ensures
        r@ == SERVER_URL@ + text::decimal(port as nat) + "/v1/chat/completions"@,
{
    let mut r = SERVER_URL.to_owned();
    r.append(decimal_of(port as u64).as_str());
    r.append("/v1/chat/completions");
    r
}

/// The command line of the server behind the name of its binary.
pub open spec fn server_args_of(cfg: TranslatorConfig) -> Seq<Seq<char>> {
    seq![
        "--model"@,
        cfg.model_path@,
        "--port"@,
        text::decimal(cfg.port as nat),
        "--host"@,
        "127.0.0.1"@,
        "--ctx-size"@,
        text::decimal(cfg.n_ctx as nat),
        "--n-gpu-layers"@,
        "999"@,
        "--threads"@,
        "4"@,
        "--jinja"@,
    ]
}

/// The arguments with which the server is started. The model's own chat template
/// gives any model its correct prompt format.
pub fn server_args(cfg: &TranslatorConfig) -> (r: Vec<String>)
    ensures
        text::strs(r@) == server_args_of(*cfg),
{
    let mut r: Vec<String> = Vec::new();
    r.push("--model".to_owned());
    r.push(cfg.model_path.clone());
    r.push("--port".to_owned());
    r.push(decimal_of(cfg.port as u64));
    r.push("--host".to_owned());
    r.push("127.0.0.1".to_owned());
    r.push("--ctx-size".to_owned());
    r.push(decimal_of(cfg.n_ctx as u64));
    r.push("--n-gpu-layers".to_owned());
    r.push("999".to_owned());
    r.push("--threads".to_owned());
    r.push("4".to_owned());
    r.push("--jinja".to_owned());
    assert(text::strs(r@) =~= server_args_of(*cfg));
    r
}

/// What is said when the server cannot be started.
pub fn spawn_error(binary: &str) -> (r: String)
    ensures
        r@ == "spawning llama-server ("@ + binary@
            + "). Install it with `brew install llama.cpp` or set translator.binary in kotoma.toml."@,
{
    let mut r = "spawning llama-server (".to_owned();
    r.append(binary);
    r.append(
        "). Install it with `brew install llama.cpp` or set translator.binary in kotoma.toml.",
    );
    r
}

/// The wait for a server that is starting: what its last answer was.
pub struct HealthWait {
    pub last_err: Option<String>,
}

/// What is seen of the server before it is asked again.
pub enum ServerState {
    /// The time to start is over.
    TimedOut,
    /// The process ended, with this status.
    Exited(String),
    /// The process runs.
    Running,
}

/// How the server answered.
pub enum HealthAnswer {
    Status(u16),
    Unreachable(String),
}

/// What is said when the server ended while it started.
pub open spec fn exited_text(status: Seq<char>, port: u16) -> Seq<char> {
    "llama-server exited during startup ("@ + status + ") — is port "@ + text::decimal(port as nat)
        + " already in use by a stale llama-server? Kill it (`pkill llama-server`) and retry. See llama-server.log for details."@
}

/// What is said when the server did not become ready in time.
pub open spec fn timeout_text(secs: u64, last: Option<Seq<char>>) -> Seq<char> {
    "llama-server did not become ready within "@ + text::decimal(secs as nat) + "s (last: "@ + (
    match last {
        Some(e) => e,
        None => "unknown"@,
    }) + ")"@
}

impl HealthWait {
    pub fn new() -> (r: Self)
        ensures
            r.last_err is None,
    {
        HealthWait { last_err: None }
    }

    /// Whether to go on asking: an error when the time is over, or when the process
    /// ended. A stale server from a crashed session can hold the port and answer in
    /// place of the one that was started, so an ended process is an error whatever
    /// the port says.
    pub fn check(&self, cfg: &TranslatorConfig, state: ServerState) -> (r: Result<(), String>)
        ensures
            match state {
                ServerState::TimedOut => r matches Err(e) && e@ == timeout_text(
                    cfg.startup_timeout_secs,
                    text::opt_str(self.last_err),
                ),
                ServerState::Exited(status) => r matches Err(e) && e@ == exited_text(
                    status@,
                    cfg.port,
                ),
                ServerState::Running => r is Ok,
            },
    {
        match state {
            ServerState::TimedOut => {
                let mut e = "llama-server did not become ready within ".to_owned();
                e.append(decimal_of(cfg.startup_timeout_secs).as_str());
                e.append("s (last: ");
                match &self.last_err {
                    Some(last) => e.append(last.as_str()),
                    None => e.append("unknown"),
                }
                e.append(")");
                Err(e)
            },
            ServerState::Exited(status) => {
                let mut e = "llama-server exited during startup (".to_owned();
                e.append(status.as_str());
                e.append(") — is port ");
                e.append(decimal_of(cfg.port as u64).as_str());
                e.append(
                    " already in use by a stale llama-server? Kill it (`pkill llama-server`) and retry. See llama-server.log for details.",
                );
                Err(e)
            },
            ServerState::Running => Ok(()),
        }
    }

    /// Whether the server is ready, by its answer; another answer is remembered.
    pub fn answer(&mut self, answer: HealthAnswer) -> (ready: bool)
        ensures
            ready == (answer == HealthAnswer::Status(200)),
            match answer {
                HealthAnswer::Status(200) => *final(self) == *old(self),
                HealthAnswer::Status(n) => text::opt_str(final(self).last_err) == Some(
                    "status "@ + text::decimal(n as nat),
                ),
                HealthAnswer::Unreachable(e) => text::opt_str(final(self).last_err) == Some(e@),
            },
    {
        match answer {
            HealthAnswer::Status(n) => {
                if n == 200 {
                    return true;
                }
                let mut e = "status ".to_owned();
                e.append(decimal_of(n as u64).as_str());
                self.last_err = Some(e);
                false
            },
            HealthAnswer::Unreachable(e) => {
                self.last_err = Some(e);
                false
            },
        }
    }
}

/// How often the server is restarted without a translation in between.
pub const MAX_SERVER_RESTARTS: u32 = 5;

/// The worker that translates lines: its examples, a line to try again, and how
/// often the server was restarted since the last translation.
pub struct Translator {
    pub context: ContextWindow,
    pub pending: Option<TranscriptLine>,
    pub restarts: u32,
}

/// The contents of a [`Translator`].
pub struct TranslatorModel {
    pub context: Seq<PairModel>,
    pub pending: Option<LineModel>,
    pub restarts: nat,
}

impl View for Translator {
    type V = TranslatorModel;

    open spec fn view(&self) -> TranslatorModel {
        TranslatorModel {
            context: self.context@,
            pending: match self.pending {
                Some(l) => Some(l@),
                None => None,
            },
            restarts: self.restarts as nat,
        }
    }
}

/// What to do when the server fails.
#[derive(Clone, Copy, Debug, PartialEq, Eq, Structural)]
pub enum OnFailure {
    /// Start the server again.
    Restart,
    /// The worker ends with an error.
    GiveUp,
    /// The line is dropped, and the next one is taken.
    DropLine,
}

/// The examples after a line was translated.
pub open spec fn context_after(
    context: Seq<PairModel>,
    line: LineModel,
    text: Seq<char>,
    off: bool,
) -> Seq<PairModel> {
    if text.len() == 0 || off {
        context
    } else {
        last_of(context.push((line.src_lang, line.text, text)), CONTEXT_PAIRS as nat)
    }
}

impl Translator {
    pub fn new() -> (r: Self)
        ensures
            r@ == (TranslatorModel { context: Seq::empty(), pending: None, restarts: 0 }),
            r.wf(),
    {
        Translator { context: ContextWindow::new(), pending: None, restarts: 0 }
    }

    /// The restarts stay within their limit, and the examples within theirs.
    pub open spec fn wf(&self) -> bool {
        self.restarts <= MAX_SERVER_RESTARTS && self@.context.len() <= CONTEXT_PAIRS
    }

    /// The server did not become ready.
    pub fn not_ready(&mut self) -> (r: OnFailure)
        requires
            old(self).wf(),
        ensures
            final(self).wf(),
            old(self)@.restarts < MAX_SERVER_RESTARTS ==> r == OnFailure::Restart && final(self)@
                == (TranslatorModel { restarts: old(self)@.restarts + 1, ..old(self)@ }),
            old(self)@.restarts >= MAX_SERVER_RESTARTS ==> r == OnFailure::GiveUp && final(self)@
                == old(self)@,
    {
        if self.restarts >= MAX_SERVER_RESTARTS {
            return OnFailure::GiveUp;
        }
        self.restarts += 1;
        OnFailure::Restart
    }

    /// The line that waits to be tried again.
    pub fn take_pending(&mut self) -> (r: Option<TranscriptLine>)
        requires
            old(self).wf(),
        ensures
            final(self).wf(),
            final(self)@ == (TranslatorModel { pending: None, ..old(self)@ }),
            match r {
                Some(l) => old(self)@.pending == Some(l@),
                None => old(self)@.pending is None,
            },
    {
        self.pending.take()
    }

    /// A translation came back. An empty one changes nothing. Another one goes to the
    /// user interface, and into the examples unless it is in the wrong language:
    /// there it would make the leak perpetuate itself.
    pub fn translated(&mut self, line: &TranscriptLine, t: Translation) -> (r: Option<UiMsg>)
        requires
            old(self).wf(),
        ensures
            final(self).wf(),
            final(self)@ == (TranslatorModel {
                context: context_after(old(self)@.context, line@, t.text@, t.off_target),
                restarts: if t.text@.len() == 0 {
                    old(self)@.restarts
                } else {
                    0
                },
                ..old(self)@
            }),
            match r {
                Some(UiMsg::TranslationReady { id, translated }) => t.text@.len() > 0 && id
                    == line.id && translated@ == t.text@,
                Some(_) => false,
                None => t.text@.len() == 0,
            },
    {
        if t.text.as_str().is_empty() {
            return None;
        }
        if !t.off_target {
            self.context.push(line.src_lang.as_str(), line.text.as_str(), t.text.as_str());
        }
        self.restarts = 0;
        Some(UiMsg::TranslationReady { id: line.id, translated: t.text })
    }

    /// A translation failed. Where the server died, the line waits for the next
    /// server; otherwise (a timeout, say) it is dropped.
    pub fn failed(&mut self, line: TranscriptLine, server_exited: bool) -> (r: OnFailure)
        requires
            old(self).wf(),
        ensures
            final(self).wf(),
            !server_exited ==> r == OnFailure::DropLine && final(self)@ == old(self)@,
            server_exited && old(self)@.restarts >= MAX_SERVER_RESTARTS ==> r == OnFailure::GiveUp
                && final(self)@ == old(self)@,
            server_exited && old(self)@.restarts < MAX_SERVER_RESTARTS ==> r == OnFailure::Restart
                && final(self)@ == (TranslatorModel {
                restarts: old(self)@.restarts + 1,
                pending: Some(line@),
                ..old(self)@
            }),
    {
        if !server_exited {
            return OnFailure::DropLine;
        }
        if self.restarts >= MAX_SERVER_RESTARTS {
            return OnFailure::GiveUp;
        }
        self.restarts += 1;
        self.pending = Some(line);
        OnFailure::Restart
    }
}

/// What is said when the worker gives up on the server.
pub fn gave_up_error() -> (r: String)
    ensures
        r@ == "llama-server keeps crashing (gave up after "@ + text::decimal(MAX_SERVER_RESTARTS as nat)
            + " restarts)"@,
{
    let mut r = "llama-server keeps crashing (gave up after ".to_owned();
    r.append(decimal_of(MAX_SERVER_RESTARTS as u64).as_str());
    r.append(" restarts)");
    r
}

/// The characters of the transcript that are summed up, counted from its end: they
/// must stay well inside the server's context window.
pub const SUMMARY_MAX_CHARS: usize = 8_000;

/// Instructions for the summary.
pub const SUMMARY_PROMPT: &'static str =
    "あなたは議事録アシスタントです。与えられた会話の書き起こしを日本語で要約してください。\n- 主なトピックと決定事項を3〜6点の箇条書きで\n- 各項目は「- 」で始まる1行で簡潔に\n- 出力は箇条書きのみ。前置きや説明は不要";

/// Instructions for the English rendering of the summary.
pub const SUMMARY_ENGLISH_PROMPT: &'static str =
    "Translate the following Japanese meeting-summary bullet points into English.\n- Keep the bullet-list format (one \"- \" item per line)\n- Output only the translated bullets, nothing else";

/// A session summed up.
pub struct Summary {
    pub ja: String,
    /// English rendering of the same bullets; none when that step failed.
    pub en: Option<String>,
}

/// The transcript as it is summed up: a line of text for each line, with its time.
pub open spec fn plain_transcript(lines: Seq<LineModel>) -> Seq<char>
    decreases lines.len(),
{
    if lines.len() == 0 {
        Seq::empty()
    } else {
        let l = lines.last();
        plain_transcript(lines.drop_last()) + "["@ + l.started_at.hm() + "] "@ + l.text + "\n"@
    }
}

/// A request of two turns: instructions and a text.
pub open spec fn instructed(prompt: Seq<char>, text: Seq<char>, tenths: int) -> RequestModel {
    RequestModel {
        turns: seq![(Role::System, prompt), (Role::User, text)],
        max_tokens: 256,
        temperature_tenths: tenths,
    }
}

fn instruct(prompt: &str, text: &str, tenths: u32) -> (r: ChatRequest)
    ensures
        r@ == instructed(prompt@, text@, tenths as int),
{
    let mut messages: Vec<ChatMessage> = Vec::new();
    add_turn(&mut messages, Role::System, prompt);
    add_turn(&mut messages, Role::User, text);
    assert(turns(messages@) =~= seq![(Role::System, prompt@), (Role::User, text@)]);
    ChatRequest { messages, max_tokens: 256, temperature_tenths: tenths }
}

/// Asks for a summary of a session in Japanese, of the end of the transcript where
/// it is long.
pub fn summary_request(lines: &Vec<TranscriptLine>) -> (r: ChatRequest)
    ensures
        r@ == instructed(
            SUMMARY_PROMPT@,
            last_of(plain_transcript(transcribe::line_models(lines@)), SUMMARY_MAX_CHARS as nat),
            3,
        ),
{
    let ghost all = transcribe::line_models(lines@);
    let mut transcript = String::new();
    let mut i: usize = 0;
    while i < lines.len()
        invariant
            i <= lines@.len(),
            all == transcribe::line_models(lines@),
            transcript@ == plain_transcript(all.take(i as int)),
        decreases lines@.len() - i,
    {
        assert(all.take(i + 1).drop_last() =~= all.take(i as int));
        assert(all.take(i + 1).last() == lines@[i as int]@);
        transcript.append("[");
        transcript.append(lines[i].started_at.hm().as_str());
        transcript.append("] ");
        transcript.append(lines[i].text.as_str());
        transcript.append("\n");
        i += 1;
    }
    assert(all.take(lines@.len() as int) =~= all);
    let total: usize = transcript.as_str().unicode_len();
    if total > SUMMARY_MAX_CHARS {
        let chars = chars_of(transcript.as_str());
        let tail = string_of(&chars, total - SUMMARY_MAX_CHARS, total);
        assert(tail@ =~= last_of(transcript@, SUMMARY_MAX_CHARS as nat));
        transcript = tail;
    }
    instruct(SUMMARY_PROMPT, transcript.as_str(), 3)
}

/// Asks for the same bullets in English. Translating the finished bullets keeps
/// both sections saying the same thing.
pub fn english_summary_request(ja: &str) -> (r: ChatRequest)
    ensures
        r@ == instructed(SUMMARY_ENGLISH_PROMPT@, ja@, 2),
{
    instruct(SUMMARY_ENGLISH_PROMPT, ja, 2)
}

/// Whether the English rendering is to be asked for: there are bullets to render.
pub fn wants_english(ja: &str) -> (r: bool)
    ensures
        r == (ja@.len() > 0),
{
    !ja.is_empty()
}

/// The summary, from the Japanese bullets and the reply to the second request, if
/// there is one.
pub fn finish_summary(ja: String, en_reply: Option<String>) -> (r: Summary)
    ensures
        r.ja@ == ja@,
        text::opt_str(r.en) == if ja@.len() > 0 && (text::opt_str(en_reply) matches Some(s)
            && s.len() > 0) {
            text::opt_str(en_reply)
        } else {
            None
        },
{
    let en = match en_reply {
        Some(s) => if !ja.as_str().is_empty() && !s.as_str().is_empty() {
            Some(s)
        } else {
            None
        },
        None => None,
    };
    Summary { ja, en }
}

/// The context window never holds more than its number of pairs, and what it holds
/// are the most recent pairs: the newest pair is always in it.
pub proof fn window_is_recent(pairs: Seq<PairModel>, new: PairModel)
    ensures
        last_of(pairs.push(new), CONTEXT_PAIRS as nat).len() <= CONTEXT_PAIRS,
        last_of(pairs.push(new), CONTEXT_PAIRS as nat).last() == new,
        pairs.len() < CONTEXT_PAIRS ==> last_of(pairs.push(new), CONTEXT_PAIRS as nat)
            == pairs.push(new),
        pairs.len() >= CONTEXT_PAIRS ==> last_of(pairs.push(new), CONTEXT_PAIRS as nat)
            == pairs.skip(pairs.len() - CONTEXT_PAIRS + 1).push(new),
{
    if pairs.len() >= CONTEXT_PAIRS {
        assert(last_of(pairs.push(new), CONTEXT_PAIRS as nat) =~= pairs.skip(
            pairs.len() - CONTEXT_PAIRS + 1,
        ).push(new));
    }
}

/// Only pairs in the asked direction are shown, and every one of them.
pub proof fn history_is_one_way(pairs: Seq<PairModel>, lang: Seq<char>)
    ensures
        history(pairs, lang).len() <= pairs.len(),
        forall|i: int|
            0 <= i < history(pairs, lang).len() ==> exists|k: int|
                0 <= k < pairs.len() && pairs[k] == (
                    lang,
                    (#[trigger] history(pairs, lang)[i]).0,
                    history(pairs, lang)[i].1,
                ),
        forall|k: int|
            0 <= k < pairs.len() && pairs[k].0 == lang ==> history(pairs, lang).contains(
                ((#[trigger] pairs[k]).1, pairs[k].2),
            ),
    decreases pairs.len(),
{
    if pairs.len() > 0 {
        let before = pairs.drop_last();
        history_is_one_way(before, lang);
        let h = history(pairs, lang);
        let hb = history(before, lang);
        assert forall|i: int| 0 <= i < h.len() implies exists|k: int|
            0 <= k < pairs.len() && pairs[k] == (lang, (#[trigger] h[i]).0, h[i].1) by {
            if i < hb.len() {
                assert(h[i] == hb[i]);
                let k = choose|k: int|
                    0 <= k < before.len() && before[k] == (lang, hb[i].0, hb[i].1);
                assert(pairs[k] == (lang, h[i].0, h[i].1));
            } else {
                assert(pairs[pairs.len() - 1] == (lang, h[i].0, h[i].1));
            }
        }
        assert forall|k: int| 0 <= k < pairs.len() && pairs[k].0 == lang implies h.contains(
            ((#[trigger] pairs[k]).1, pairs[k].2),
        ) by {
            if k < before.len() {
                assert(before[k] == pairs[k]);
                let i = choose|i: int| 0 <= i < hb.len() && hb[i] == (before[k].1, before[k].2);
                assert(h[i] == (pairs[k].1, pairs[k].2));
            } else {
                assert(h[h.len() - 1] == (pairs[k].1, pairs[k].2));
            }
        }
    }
}

/// A line that is in the wrong language never becomes an example.
pub proof fn leaks_are_not_examples(
    context: Seq<PairModel>,
    line: LineModel,
    text: Seq<char>,
)
    ensures
        context_after(context, line, text, true) == context,
{
}

/// Text in the target language may hold Korean in neither direction, while Chinese
/// characters are a leak only where Japanese is wanted.
pub proof fn what_leaks(text: Seq<char>)
    ensures
        off_target(false, text) == hangul_in(text),
        off_target(false, text) ==> off_target(true, text),
        kana_in(text) && !hangul_in(text) && !simplified_in(text) ==> !off_target(true, text),
{
}

/// The first request is a prefix of the corrective one, so the server's prompt
/// cache still hits.
pub proof fn retry_extends_request(request: RequestModel, target_is_ja: bool, text: Seq<char>)
    ensures
        retry_request_of(request, target_is_ja, text).turns.len() == request.turns.len() + 2,
        retry_request_of(request, target_is_ja, text).turns.take(request.turns.len() as int)
            == request.turns,
        retry_request_of(request, target_is_ja, text).max_tokens == request.max_tokens,
{
    assert(retry_request_of(request, target_is_ja, text).turns.take(request.turns.len() as int)
        =~= request.turns);
}

/// The cap on tokens stays between the floor and the configured maximum, and a
/// longer text never gets a smaller cap.
pub proof fn token_cap_is_monotone(a: nat, b: nat, cap: u32)
    requires
        a <= b,
    ensures
        MIN_TOKENS <= token_cap(a, cap) <= token_cap(b, cap),
        token_cap(b, cap) <= cap || token_cap(b, cap) == MIN_TOKENS,
{
}

/// The instructions name the direction and demand the target: a Japanese line is
/// asked for in English, and a line in any other language in Japanese.
pub proof fn prompt_demands_the_target(src_lang: Seq<char>)
    ensures
        src_lang == "ja"@ ==> prompt_for(src_lang)
            == "You are a professional simultaneous interpreter translating "@ + "from Japanese to English.\nRules:\n- Output ONLY the translation. No explanations, no quotes, no prefixes.\n- The output MUST be written in English only. Never output Japanese, Chinese, or any other language.\n- If the input is a sentence fragment (no period, cut mid-thought), translate it as a fragment. Do NOT pad or complete.\n- Preserve tone: formal stays formal, casual stays casual.\n- Keep proper nouns, technical terms, and numbers exact.\n- Match punctuation style of the target language."@,
        src_lang != "ja"@ ==> prompt_for(src_lang)
            == "You are a professional simultaneous interpreter translating "@ + "from English to Japanese.\nRules:\n- Output ONLY the translation. No explanations, no quotes, no prefixes.\n- The output MUST be written in Japanese only. Never output Korean (Hangul), Simplified or Traditional Chinese. Use hiragana, katakana, and Japanese-style kanji; do NOT output Hangul, Chinese-only characters, or Pinyin.\n- If the input is a sentence fragment (no period, cut mid-thought), translate it as a fragment. Do NOT pad or complete.\n- Preserve tone: formal stays formal, casual stays casual.\n- Keep proper nouns, technical terms, and numbers exact.\n- Match punctuation style of the target language."@,
{
    reveal_strlit("from Japanese to English.\nRules:\n- Output ONLY the translation. No explanations, no quotes, no prefixes.\n- The output MUST be written in English only. Never output Japanese, Chinese, or any other language.\n- If the input is a sentence fragment (no period, cut mid-thought), translate it as a fragment. Do NOT pad or complete.\n- Preserve tone: formal stays formal, casual stays casual.\n- Keep proper nouns, technical terms, and numbers exact.\n- Match punctuation style of the target language.");
    reveal_strlit("from English to Japanese.\nRules:\n- Output ONLY the translation. No explanations, no quotes, no prefixes.\n- The output MUST be written in Japanese only. Never output Korean (Hangul), Simplified or Traditional Chinese. Use hiragana, katakana, and Japanese-style kanji; do NOT output Hangul, Chinese-only characters, or Pinyin.\n- If the input is a sentence fragment (no period, cut mid-thought), translate it as a fragment. Do NOT pad or complete.\n- Preserve tone: formal stays formal, casual stays casual.\n- Keep proper nouns, technical terms, and numbers exact.\n- Match punctuation style of the target language.");
    reveal_strlit("You are a professional simultaneous interpreter translating ");
    reveal_strlit(".\nRules:\n- Output ONLY the translation. No explanations, no quotes, no prefixes.\n- The output MUST be written in ");
    reveal_strlit("\n- If the input is a sentence fragment (no period, cut mid-thought), translate it as a fragment. Do NOT pad or complete.\n- Preserve tone: formal stays formal, casual stays casual.\n- Keep proper nouns, technical terms, and numbers exact.\n- Match punctuation style of the target language.");
    reveal_strlit("English only. Never output Japanese, Chinese, or any other language.");
    reveal_strlit("Japanese only. Never output Korean (Hangul), Simplified or Traditional Chinese. Use hiragana, katakana, and Japanese-style kanji; do NOT output Hangul, Chinese-only characters, or Pinyin.");
    reveal_strlit("from Japanese to English");
    reveal_strlit("from English to Japanese");
    assert(prompt_for("ja"@) =~= "You are a professional simultaneous interpreter translating "@ + "from Japanese to English.\nRules:\n- Output ONLY the translation. No explanations, no quotes, no prefixes.\n- The output MUST be written in English only. Never output Japanese, Chinese, or any other language.\n- If the input is a sentence fragment (no period, cut mid-thought), translate it as a fragment. Do NOT pad or complete.\n- Preserve tone: formal stays formal, casual stays casual.\n- Keep proper nouns, technical terms, and numbers exact.\n- Match punctuation style of the target language."@);
    assert(src_lang != "ja"@ ==> prompt_for(src_lang) =~= "You are a professional simultaneous interpreter translating "@ + "from English to Japanese.\nRules:\n- Output ONLY the translation. No explanations, no quotes, no prefixes.\n- The output MUST be written in Japanese only. Never output Korean (Hangul), Simplified or Traditional Chinese. Use hiragana, katakana, and Japanese-style kanji; do NOT output Hangul, Chinese-only characters, or Pinyin.\n- If the input is a sentence fragment (no period, cut mid-thought), translate it as a fragment. Do NOT pad or complete.\n- Preserve tone: formal stays formal, casual stays casual.\n- Keep proper nouns, technical terms, and numbers exact.\n- Match punctuation style of the target language."@);
}

/// How many of the pairs are in this direction.
pub open spec fn pairs_in(pairs: Seq<PairModel>, lang: Seq<char>) -> nat
    decreases pairs.len(),
{
    if pairs.len() == 0 {
        0
    } else if pairs[pairs.len() - 1].0 == lang {
        pairs_in(pairs.drop_last(), lang) + 1
    } else {
        pairs_in(pairs.drop_last(), lang)
    }
}

/// The examples are the pairs in the asked direction, all of them, each as often as
/// it is there, in the order in which they came.
pub proof fn history_keeps_order(pairs: Seq<PairModel>, lang: Seq<char>)
    ensures
        history(pairs, lang).len() == pairs_in(pairs, lang),
        forall|k: int|
            0 <= k < pairs.len() && (#[trigger] pairs[k]).0 == lang ==> {
                let i = pairs_in(pairs.take(k), lang) as int;
                &&& i < history(pairs, lang).len()
                &&& history(pairs, lang)[i] == (pairs[k].1, pairs[k].2)
            },
    decreases pairs.len(),
{
    if pairs.len() > 0 {
        let before = pairs.drop_last();
        history_keeps_order(before, lang);
        assert forall|k: int| 0 <= k < pairs.len() && (#[trigger] pairs[k]).0 == lang implies {
            let i = pairs_in(pairs.take(k), lang) as int;
            &&& i < history(pairs, lang).len()
            &&& history(pairs, lang)[i] == (pairs[k].1, pairs[k].2)
        } by {
            if k < before.len() {
                assert(before[k] == pairs[k]);
                assert(before.take(k) =~= pairs.take(k));
            } else {
                assert(pairs.take(k) =~= before);
            }
        }
    }
}

proof fn lemma_example_turns(pairs: Seq<(Seq<char>, Seq<char>)>)
    ensures
        example_turns(pairs).len() == 2 * pairs.len(),
        forall|i: int|
            0 <= i < pairs.len() ==> {
                &&& example_turns(pairs)[2 * i] == (Role::User, (#[trigger] pairs[i]).0)
                &&& example_turns(pairs)[2 * i + 1] == (Role::Assistant, pairs[i].1)
            },
    decreases pairs.len(),
{
    if pairs.len() > 0 {
        let before = pairs.drop_last();
        lemma_example_turns(before);
        assert forall|i: int| 0 <= i < pairs.len() implies {
            &&& example_turns(pairs)[2 * i] == (Role::User, (#[trigger] pairs[i]).0)
            &&& example_turns(pairs)[2 * i + 1] == (Role::Assistant, pairs[i].1)
        } by {
            if i < before.len() {
                assert(before[i] == pairs[i]);
            }
        }
    }
}

/// What a request for a line says: the instructions for its direction come first,
/// its text comes last, and in between every translated pair in the same direction
/// stands as a turn of the user and the answer to it, in the order in which the
/// pairs came. Pairs in the other direction are left out.
pub proof fn request_shows_line_and_examples(
    line: LineModel,
    context: Seq<PairModel>,
    max_new_tokens: u32,
)
    ensures
        ({
            let r = translation_request_of(line, context, max_new_tokens);
            let n = pairs_in(context, line.src_lang) as int;
            &&& r.turns.len() == 2 * n + 2
            &&& r.turns[0] == (Role::System, prompt_for(line.src_lang))
            &&& r.turns[2 * n + 1] == (Role::User, line.text)
            &&& r.temperature_tenths == 2
            &&& r.max_tokens >= 48
            &&& forall|k: int|
                0 <= k < context.len() && (#[trigger] context[k]).0 == line.src_lang ==> {
                    let i = pairs_in(context.take(k), line.src_lang) as int;
                    &&& 0 <= i < n
                    &&& r.turns[2 * i + 1] == (Role::User, context[k].1)
                    &&& r.turns[2 * i + 2] == (Role::Assistant, context[k].2)
                }
        }),
{
    let lang = line.src_lang;
    let h = history(context, lang);
    history_keeps_order(context, lang);
    lemma_example_turns(h);
    let r = translation_request_of(line, context, max_new_tokens);
    assert forall|k: int| 0 <= k < context.len() && (#[trigger] context[k]).0 == lang implies {
        let i = pairs_in(context.take(k), lang) as int;
        &&& 0 <= i < h.len()
        &&& r.turns[2 * i + 1] == (Role::User, context[k].1)
        &&& r.turns[2 * i + 2] == (Role::Assistant, context[k].2)
    } by {
        let i = pairs_in(context.take(k), lang) as int;
        assert(h[i] == (context[k].1, context[k].2));
        assert(example_turns(h)[2 * i] == (Role::User, h[i].0));
        assert(example_turns(h)[2 * i + 1] == (Role::Assistant, h[i].1));
    }
}

/// A corrective request asks for the language that the instructions demanded: for
/// Japanese of a line that is not Japanese, for English of one that is. It quotes
/// the bad answer and is sent with more freedom.
pub proof fn retry_asks_for_the_target(
    request: RequestModel,
    src_lang: Seq<char>,
    target_is_ja: bool,
    text: Seq<char>,
)
    requires
        target_is_ja == (src_lang != "ja"@),
    ensures
        ({
            let r = retry_request_of(request, target_is_ja, text);
            let n = request.turns.len() as int;
            &&& r.turns.len() == n + 2
            &&& forall|i: int| 0 <= i < n ==> #[trigger] r.turns[i] == request.turns[i]
            &&& r.turns[n] == (Role::Assistant, text)
            &&& src_lang == "ja"@ ==> r.turns[n + 1] == (
                Role::User,
                "That was not English. Rewrite it as natural English. Output only the English translation."@,
            )
            &&& src_lang != "ja"@ ==> r.turns[n + 1] == (
                Role::User,
                "That was not Japanese. Rewrite it as natural Japanese using hiragana, katakana, and Japanese kanji — never Korean or Chinese. Output only the Japanese translation."@,
            )
            &&& r.temperature_tenths == 7
            &&& r.max_tokens == request.max_tokens
        }),
{
}

/// The cap on tokens in numbers: never under 48, never over a configured maximum of
/// at least 48, and between these two tokens for each character and 16 more.
pub proof fn token_cap_in_numbers(len: nat, cap: u32)
    ensures
        cap <= 48 ==> token_cap(len, cap) == 48,
        len <= 16 ==> token_cap(len, cap) == 48,
        cap > 48 && len > 16 && 2 * len + 16 <= cap ==> token_cap(len, cap) == 2 * len + 16,
        cap > 48 && 2 * len + 16 > cap ==> token_cap(len, cap) == cap,
{
}

proof fn lemma_han_count(text: Seq<char>)
    ensures
        han_count(text) == text.filter(|c: char| 0x4E00 <= c as u32 <= 0x9FFF).len(),
    decreases text.len(),
{
    reveal(Seq::filter);
    if text.len() > 0 {
        lemma_han_count(text.drop_last());
    }
}

/// What counts as a leak, in terms of characters: in both directions any Korean
/// letter; where Japanese is wanted also any character that only Simplified Chinese
/// has, and a text of six or more ideographs without a single kana. Nothing else.
pub proof fn leaks_in_characters(target_is_ja: bool, text: Seq<char>)
    ensures
        off_target(target_is_ja, text) <==> {
            ||| exists|i: int|
                0 <= i < text.len() && {
                    let n = #[trigger] text[i] as u32;
                    ||| 0xAC00 <= n <= 0xD7A3
                    ||| 0x1100 <= n <= 0x11FF
                    ||| 0x3130 <= n <= 0x318F
                    ||| 0xA960 <= n <= 0xA97F
                    ||| 0xD7B0 <= n <= 0xD7FF
                }
            ||| target_is_ja && exists|i: int|
                0 <= i < text.len()
                    && "们这说话时现见关车长门问读汉译应给让还么吗呢吧头买卖为发样边过别帮请"@.contains(
                    #[trigger] text[i],
                )
            ||| {
                &&& target_is_ja
                &&& text.filter(|c: char| 0x4E00 <= c as u32 <= 0x9FFF).len() >= 6
                &&& forall|i: int|
                    0 <= i < text.len() ==> !(0x3040 <= #[trigger] text[i] as u32 <= 0x30FF)
            }
        },
{
    lemma_han_count(text);
    assert(hangul_in(text) <==> exists|i: int|
        0 <= i < text.len() && {
            let n = #[trigger] text[i] as u32;
            ||| 0xAC00 <= n <= 0xD7A3
            ||| 0x1100 <= n <= 0x11FF
            ||| 0x3130 <= n <= 0x318F
            ||| 0xA960 <= n <= 0xA97F
            ||| 0xD7B0 <= n <= 0xD7FF
        });
    assert(kana_in(text) <==> exists|i: int|
        0 <= i < text.len() && 0x3040 <= #[trigger] text[i] as u32 <= 0x30FF);
}

/// What becomes of the examples: a translation that is empty or in the wrong language
/// leaves them; another one is the newest of them, and of those that were there the
/// newest two stay in front of it.
pub proof fn examples_after_a_line(
    context: Seq<PairModel>,
    line: LineModel,
    text: Seq<char>,
    off: bool,
)
    ensures
        text.len() == 0 || off ==> context_after(context, line, text, off) == context,
        text.len() > 0 && !off ==> {
            let after = context_after(context, line, text, off);
            let n = context.len() as int;
            &&& after.last() == (line.src_lang, line.text, text)
            &&& n <= 2 ==> after.drop_last() == context
            &&& n > 2 ==> after.drop_last() == seq![context[n - 2], context[n - 1]]
        },
{
    if text.len() > 0 && !off {
        let after = context_after(context, line, text, off);
        let n = context.len() as int;
        if n <= 2 {
            assert(after.drop_last() =~= context);
        } else {
            assert(after.drop_last() =~= seq![context[n - 2], context[n - 1]]);
        }
    }
}

/// The server is restarted up to five times in a row.
pub proof fn restarts_are_bounded(t: Translator)
    requires
        t.wf(),
    ensures
        t@.restarts <= 5,
        t@.context.len() <= 3,
        MAX_SERVER_RESTARTS == 5,
{
}

/// The arguments of the server: each value stands behind its flag.
pub proof fn server_args_say_what_is_configured(cfg: TranslatorConfig)
    ensures
        ({
            let a = server_args_of(cfg);
            &&& a.len() == 13
            &&& a[0] == "--model"@ && a[1] == cfg.model_path@
            &&& a[2] == "--port"@ && a[3] == text::decimal(cfg.port as nat)
            &&& a[4] == "--host"@ && a[5] == "127.0.0.1"@
            &&& a[6] == "--ctx-size"@ && a[7] == text::decimal(cfg.n_ctx as nat)
            &&& a[8] == "--n-gpu-layers"@ && a[9] == "999"@
            &&& a[10] == "--threads"@ && a[11] == "4"@
            &&& a[12] == "--jinja"@
        }),
{
}

/// What is said of a server that ended names its status and the port; what is said
/// of one that was too slow names the time and the last answer.
pub proof fn server_errors_name_the_cause(
    status: Seq<char>,
    port: u16,
    secs: u64,
    last: Option<Seq<char>>,
)
    ensures
        exited_text(status, port) == "llama-server exited during startup ("@ + status
            + ") — is port "@ + text::decimal(port as nat)
            + " already in use by a stale llama-server? Kill it (`pkill llama-server`) and retry. See llama-server.log for details."@,
        timeout_text(secs, Some(status)) == "llama-server did not become ready within "@
            + text::decimal(secs as nat) + "s (last: "@ + status + ")"@,
        timeout_text(secs, None) == "llama-server did not become ready within "@ + text::decimal(
            secs as nat,
        ) + "s (last: "@ + "unknown"@ + ")"@,
        text::occurs(exited_text(status, port), "exited during startup ("@ + status + ")"@),
        text::occurs(exited_text(status, port), "is port "@ + text::decimal(port as nat) + " "@),
        text::occurs(
            timeout_text(secs, last),
            "did not become ready within "@ + text::decimal(secs as nat) + "s"@,
        ),
        text::occurs(
            timeout_text(secs, last),
            "(last: "@ + (match last {
                Some(e) => e,
                None => "unknown"@,
            }) + ")"@,
        ),
{
    reveal_strlit("llama-server exited during startup (");
    reveal_strlit("exited during startup (");
    reveal_strlit("llama-server ");
    reveal_strlit(") — is port ");
    reveal_strlit(")");
    reveal_strlit(" — is port ");
    reveal_strlit("is port ");
    reveal_strlit(" ");
    reveal_strlit(" already in use by a stale llama-server? Kill it (`pkill llama-server`) and retry. See llama-server.log for details.");
    reveal_strlit("llama-server did not become ready within ");
    reveal_strlit("did not become ready within ");
    reveal_strlit("s (last: ");
    reveal_strlit("(last: ");
    reveal_strlit("s");
    let p = text::decimal(port as nat);
    let tail = " already in use by a stale llama-server? Kill it (`pkill llama-server`) and retry. See llama-server.log for details."@;
    let whole = exited_text(status, port);
    let a = "exited during startup ("@ + status + ")"@;
    assert(whole.subrange(13, (13 + a.len()) as int) =~= a);
    let b = "is port "@ + p + " "@;
    let at = 36 + status.len() + 4;
    assert(whole.subrange(at as int, (at + b.len()) as int) =~= b);
    let d = text::decimal(secs as nat);
    let e = match last {
        Some(e) => e,
        None => "unknown"@,
    };
    let slow = timeout_text(secs, last);
    let c = "did not become ready within "@ + d + "s"@;
    assert(slow.subrange(13, (13 + c.len()) as int) =~= c);
    let f = "(last: "@ + e + ")"@;
    let from = 41 + d.len() + 2;
    assert(slow.subrange(from as int, (from + f.len()) as int) =~= f);
}

/// The transcript that is summed up puts the lines one after the other: it takes
/// parts of a session apart, and a single line gives its time and its text.
pub proof fn plain_transcript_is_line_by_line(a: Seq<LineModel>, b: Seq<LineModel>, l: LineModel)
    ensures
        plain_transcript(a + b) == plain_transcript(a) + plain_transcript(b),
        plain_transcript(seq![l]) == "["@ + l.started_at.hm() + "] "@ + l.text + "\n"@,
    decreases b.len(),
{
    assert(seq![l].drop_last() =~= Seq::<LineModel>::empty());
    assert(plain_transcript(seq![l].drop_last()) =~= Seq::<char>::empty());
    assert(plain_transcript(seq![l]) =~= "["@ + l.started_at.hm() + "] "@ + l.text + "\n"@);
    if b.len() == 0 {
        assert(a + b =~= a);
        assert(plain_transcript(a) + plain_transcript(b) =~= plain_transcript(a));
    } else {
        plain_transcript_is_line_by_line(a, b.drop_last(), l);
        assert((a + b).drop_last() =~= a + b.drop_last());
        assert((a + b).last() == b.last());
        assert(plain_transcript(a + b) =~= plain_transcript(a) + plain_transcript(b));
    }
}

/// Of a long text the end is taken, of this length; a short one is taken whole.
pub proof fn last_of_is_the_end<A>(s: Seq<A>, n: nat)
    ensures
        s.len() <= n ==> last_of(s, n) == s,
        s.len() > n ==> last_of(s, n).len() == n,
        forall|i: int|
            0 <= i < last_of(s, n).len() ==> #[trigger] last_of(s, n)[i] == s[s.len() - last_of(
                s,
                n,
            ).len() + i],
{
}

/// A request for a summary has two turns, the instructions and the text.
pub proof fn summary_requests_have_two_turns(prompt: Seq<char>, text: Seq<char>, tenths: int)
    ensures
        ({
            let r = instructed(prompt, text, tenths);
            &&& r.turns.len() == 2
            &&& r.turns[0] == (Role::System, prompt)
            &&& r.turns[1] == (Role::User, text)
            &&& r.max_tokens == 256
            &&& r.temperature_tenths == tenths
        }),
        SUMMARY_MAX_CHARS == 8000,
        SUMMARY_PROMPT@
            == "あなたは議事録アシスタントです。与えられた会話の書き起こしを日本語で要約してください。\n- 主なトピックと決定事項を3〜6点の箇条書きで\n- 各項目は「- 」で始まる1行で簡潔に\n- 出力は箇条書きのみ。前置きや説明は不要"@,
        SUMMARY_ENGLISH_PROMPT@
            == "Translate the following Japanese meeting-summary bullet points into English.\n- Keep the bullet-list format (one \"- \" item per line)\n- Output only the translated bullets, nothing else"@,
{
}

/// The server is asked on this machine alone, and the turns of a request carry the
/// names of their roles.
pub proof fn requests_stay_on_this_machine()
    ensures
        SERVER_URL@ == "http://127.0.0.1:"@,
        role_text(Role::System) == "system"@,
        role_text(Role::User) == "user"@,
        role_text(Role::Assistant) == "assistant"@,
{
}

/// A reply is the content of the first choice without white space around it; a reply
/// without content is empty.
pub proof fn reply_is_the_first_content(body: Seq<char>, content: Seq<char>)
    ensures
        reply_content(body) == json_string(body, "choices"@, 0, "message"@, "content"@),
        reply_text(None).len() == 0,
        exists|i: int, j: int|
            0 <= i <= j <= content.len() && reply_text(Some(content)) == #[trigger] content.subrange(
                i,
                j,
            ) && (forall|k: int| 0 <= k < i || j <= k < content.len() ==> text::is_white(
                #[trigger] content[k],
            )),
        reply_text(Some(content)).len() > 0 ==> !text::is_white(reply_text(Some(content))[0])
            && !text::is_white(reply_text(Some(content)).last()),
{
    text::trimmed_lacks_only_white_ends(content);
}

/// What stands for messages and for pairs: each of them, in order.
pub proof fn turns_keep_their_messages(v: Seq<ChatMessage>, pairs: Seq<(&str, &str)>)
    ensures
        turns(v).len() == v.len(),
        forall|i: int|
            0 <= i < v.len() ==> #[trigger] turns(v)[i] == (v[i].role, v[i].content@),
        slice_pairs(pairs).len() == pairs.len(),
        forall|i: int|
            0 <= i < pairs.len() ==> #[trigger] slice_pairs(pairs)[i] == (pairs[i].0@, pairs[i].1@),
{
}

} // verus!
