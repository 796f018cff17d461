//! Model provider profiles, their validation, the model-client boundary and
//! the local mock story model.

use vstd::prelude::*;
use crate::foreign::{new_uuid, is_hyphenated_uuid};
use crate::text::{chars_of, contains_piece, has_piece, is_blank, is_white_space, lines, line_ranges, str_is_blank, string_of, take_chars, take_prefix};

verus! {

/// The family of API a provider profile talks to.
#[derive(Debug, Clone, Copy, PartialEq, Eq, Structural)]
pub enum ModelProviderKind {
    OpenAiCompatible,
    AnthropicCompatible,
    GeminiCompatible,
    Ollama,
    Mock,
}

/// A user-configured model provider.
#[derive(Debug, Clone)]
pub struct ModelProviderProfile {
    pub id: String,
    pub display_name: String,
    pub kind: ModelProviderKind,
    pub base_url: Option<String>,
    pub model: String,
    pub api_key: Option<String>,
    pub enabled: bool,
}

/// The answer of a provider check.
#[derive(Debug, Clone)]
pub struct ProviderTestResult {
    pub ok: bool,
    pub message: String,
}

/// What is handed to a model for one scene.
#[derive(Debug, Clone)]
pub struct ModelRequest {
    pub system: String,
    pub prompt: String,
    pub max_output_chars: usize,
}

/// What a model answers.
#[derive(Debug, Clone)]
pub struct ModelResponse {
    pub text: String,
}

/// A failure reported by a model client.
#[derive(Debug, Clone)]
pub enum ModelError {
    Failed(String),
}

/// The boundary to a story model; implementations decide how the text is
/// produced.
pub trait ModelClient {
    fn complete(&self, request: ModelRequest) -> Result<ModelResponse, ModelError>;
}

/// Copies a string slice into an owned string.
pub fn owned(s: &str) -> (r: String)
    ensures
        r@ == s@,
{
    s.to_string()
}

impl ModelProviderProfile {
    /// The built-in local demonstration profile.
    pub fn mock() -> (r: Self)
        ensures
            r.id@ == "mock-local"@,
            r.display_name@ == "本地演示模型"@,
            r.kind == ModelProviderKind::Mock,
            r.base_url is None,
            r.model@ == "mock-story-v1"@,
            r.api_key is None,
            r.enabled,
    {
        ModelProviderProfile {
            id: owned("mock-local"),
            display_name: owned("本地演示模型"),
            kind: ModelProviderKind::Mock,
            base_url: None,
            model: owned("mock-story-v1"),
            api_key: None,
            enabled: true,
        }
    }

    /// The same profile under a fresh random identifier.
    pub fn with_new_id(self) -> (r: Self)
        ensures
            is_hyphenated_uuid(r.id@),
            r.display_name == self.display_name,
            r.kind == self.kind,
            r.base_url == self.base_url,
            r.model == self.model,
            r.api_key == self.api_key,
            r.enabled == self.enabled,
    {
        let mut p = self;
        p.id = new_uuid();
        p
    }
}

/// An optional text that holds something besides white space.
pub open spec fn has_text(o: Option<String>) -> bool {
    o matches Some(s) && !is_blank(s@)
}

/// Whether a profile is usable, and the message shown to the player.
pub open spec fn profile_verdict(p: ModelProviderProfile) -> (bool, Seq<char>) {
    if !p.enabled {
        (false, "这个模型配置还没有启用"@)
    } else if is_blank(p.model@) {
        (false, "请填写模型名称"@)
    } else {
        match p.kind {
            ModelProviderKind::Mock => (true, "本地演示模型可用，不会上传任何原文"@),
            ModelProviderKind::Ollama => if !has_text(p.base_url) {
                (false, "Ollama 需要填写本地地址，例如 http://localhost:11434"@)
            } else {
                (true, "配置格式有效。V1 会只发送当前回合检索片段"@)
            },
            _ => if has_text(p.api_key) && has_text(p.base_url) {
                (true, "配置格式有效。联网连通性测试会在真实模型适配器接入后启用"@)
            } else {
                (false, "请填写 API Key 和 Base URL"@)
            },
        }
    }
}

fn option_has_text(o: &Option<String>) -> (r: bool)
    ensures
        r == has_text(*o),
{
    match o {
        Some(s) => !str_is_blank(s.as_str()),
        None => false,
    }
}

/// Checks that a profile is enabled and names what its kind of provider
/// needs; no network call is made.
pub fn validate_profile(profile: &ModelProviderProfile) -> (r: ProviderTestResult)
    ensures
        r.ok == profile_verdict(*profile).0,
        r.message@ == profile_verdict(*profile).1,
{
    if !profile.enabled {
        return ProviderTestResult { ok: false, message: owned("这个模型配置还没有启用") };
    }
    if str_is_blank(profile.model.as_str()) {
        return ProviderTestResult { ok: false, message: owned("请填写模型名称") };
    }
    match profile.kind {
        ModelProviderKind::Mock => ProviderTestResult {
            ok: true,
            message: owned("本地演示模型可用，不会上传任何原文"),
        },
        ModelProviderKind::Ollama => {
            if !option_has_text(&profile.base_url) {
                ProviderTestResult {
                    ok: false,
                    message: owned("Ollama 需要填写本地地址，例如 http://localhost:11434"),
                }
            } else {
                ProviderTestResult {
                    ok: true,
                    message: owned("配置格式有效。V1 会只发送当前回合检索片段"),
                }
            }
        },
        _ => {
            let has_key = option_has_text(&profile.api_key);
            let has_base = option_has_text(&profile.base_url);
            if has_key && has_base {
                ProviderTestResult {
                    ok: true,
                    message: owned("配置格式有效。联网连通性测试会在真实模型适配器接入后启用"),
                }
            } else {
                ProviderTestResult { ok: false, message: owned("请填写 API Key 和 Base URL") }
            }
        },
    }
}

/// The text that stands in for a key that is not kept on disk.
pub open spec fn masked_key() -> Seq<char> {
    "__local_secret_not_persisted__"@
}

/// The profile as it is stored: an API key that holds text is replaced by a
/// placeholder, a blank or missing one is dropped.
pub fn mask_api_key(profile: ModelProviderProfile) -> (r: ModelProviderProfile)
    ensures
        r.id == profile.id,
        r.display_name == profile.display_name,
        r.kind == profile.kind,
        r.base_url == profile.base_url,
        r.model == profile.model,
        r.enabled == profile.enabled,
        has_text(profile.api_key) ==> (r.api_key matches Some(k) && k@ == masked_key()),
        !has_text(profile.api_key) ==> r.api_key is None,
{
    let mut p = profile;
    let keep = option_has_text(&p.api_key);
    p.api_key = if keep {
        Some(owned("__local_secret_not_persisted__"))
    } else {
        None
    };
    p
}

/// A prompt line that names the player's move or a request to go on.
pub open spec fn is_marked_line(line: Seq<char>) -> bool {
    has_piece(line, "玩家动作"@) || has_piece(line, "继续剧情"@)
}

/// The last marked line among `ls`.
pub open spec fn last_marked(ls: Seq<Seq<char>>) -> Option<Seq<char>>
    decreases ls.len(),
{
    if ls.len() == 0 {
        None
    } else if is_marked_line(ls.last()) {
        Some(ls.last())
    } else {
        last_marked(ls.drop_last())
    }
}

/// The line the mock model builds its scene around.
pub open spec fn mock_seed(prompt: Seq<char>) -> Seq<char> {
    match last_marked(lines(prompt)) {
        Some(line) => line,
        None => "玩家选择继续向前。"@,
    }
}

pub open spec fn mock_opening() -> Seq<char> {
    "你稳住呼吸，顺着原文里留下的线索往前试探。\n\n"@
}

pub open spec fn mock_closing() -> Seq<char> {
    "\n\n故事没有立刻偏离主线，但你刚才的选择已经在世界线里留下痕迹。远处有人提到一个熟悉的名字，下一步最好先确认对方的目的，再决定是说服、试探，还是暂时退开。"@
}

/// The scene the mock model writes for a prompt.
pub open spec fn mock_scene(prompt: Seq<char>, max_chars: int) -> Seq<char> {
    take_chars(mock_opening() + mock_seed(prompt) + mock_closing(), max_chars)
}

/// A deterministic local model that echoes the player's last move inside a
/// fixed scene, so the app works without any provider.
#[derive(Debug, Default)]
pub struct MockStoryModel;

fn marked(line: &Vec<char>) -> (r: bool)
    ensures
        r == is_marked_line(line@),
{
    let a = chars_of("玩家动作");
    let b = chars_of("继续剧情");
    contains_piece(line, &a) || contains_piece(line, &b)
}

fn copy_range(v: &Vec<char>, lo: usize, hi: usize) -> (r: Vec<char>)
    requires
        lo <= hi <= v.len(),
    ensures
        r@ == v@.subrange(lo as int, hi as int),
{
    let mut r: Vec<char> = Vec::new();
    let mut i = lo;
    while i < hi
        invariant
            lo <= i <= hi <= v.len(),
            r@ == v@.subrange(lo as int, i as int),
        decreases hi - i,
    {
        r.push(v[i]);
        i = i + 1;
        assert(r@ =~= v@.subrange(lo as int, i as int));
    }
    r
}

/// The seed line of the mock model.
pub fn mock_seed_line(prompt: &str) -> (r: String)
    ensures
        r@ == mock_seed(prompt@),
{
    let v = chars_of(prompt);
    let ranges = line_ranges(&v);
    let mut k = ranges.len();
    assert(lines(v@).take(k as int) =~= lines(v@));
    while k > 0
        invariant
            k <= ranges.len(),
            ranges.len() == lines(v@).len(),
            v@ == prompt@,
            forall|j: int|
                0 <= j < ranges.len() ==> {
                    &&& (#[trigger] ranges@[j]).0 <= ranges@[j].1 <= v.len()
                    &&& v@.subrange(ranges@[j].0 as int, ranges@[j].1 as int) == lines(v@)[j]
                },
            last_marked(lines(v@)) == last_marked(lines(v@).take(k as int)),
        decreases k,
    {
        let (a, b) = ranges[k - 1];
        let line = copy_range(&v, a, b);
        proof {
            assert(lines(v@).take(k as int).drop_last() =~= lines(v@).take(k - 1));
            assert(lines(v@).take(k as int).last() == lines(v@)[k - 1]);
        }
        if marked(&line) {
            return string_of(&v, a, b);
        }
        k = k - 1;
    }
    owned("玩家选择继续向前。")
}

impl ModelClient for MockStoryModel {
    fn complete(&self, request: ModelRequest) -> (r: Result<ModelResponse, ModelError>)
        ensures
            r matches Ok(resp) && resp.text@ == mock_scene(
                request.prompt@,
                request.max_output_chars as int,
            ),
    {
        let seed = mock_seed_line(request.prompt.as_str());
        let mut text = owned("你稳住呼吸，顺着原文里留下的线索往前试探。\n\n");
        text.append(seed.as_str());
        text.append(
            "\n\n故事没有立刻偏离主线，但你刚才的选择已经在世界线里留下痕迹。远处有人提到一个熟悉的名字，下一步最好先确认对方的目的，再决定是说服、试探，还是暂时退开。",
        );
        let out = take_prefix(text.as_str(), request.max_output_chars);
        Ok(ModelResponse { text: out })
    }
}

/// A profile validates only when it is enabled and names a model with a
/// character other than white space. A cloud provider (OpenAI, Anthropic or
/// Gemini compatible) validates exactly when, besides, both its API key and
/// its base URL are given and hold such a character, so one without a key
/// never validates; Ollama needs such a base URL; the mock needs neither.
pub proof fn profiles_need_what_their_provider_uses(p: ModelProviderProfile)
    ensures
        profile_verdict(p).0 ==> p.enabled && exists|i: int| 0 <= i < p.model@.len() && !is_white_space(
            #[trigger] p.model@[i],
        ),
        (p.kind is OpenAiCompatible || p.kind is AnthropicCompatible || p.kind is GeminiCompatible)
            ==> (profile_verdict(p).0 <==> (p.enabled && (exists|i: int|
            0 <= i < p.model@.len() && !is_white_space(#[trigger] p.model@[i])) && (p.api_key matches Some(
            k,
        ) && exists|i: int| 0 <= i < k@.len() && !is_white_space(#[trigger] k@[i])) && (
        p.base_url matches Some(u) && exists|i: int| 0 <= i < u@.len() && !is_white_space(#[trigger] u@[i])))),
        (p.kind is OpenAiCompatible || p.kind is AnthropicCompatible || p.kind is GeminiCompatible)
            && p.api_key is None ==> !profile_verdict(p).0,
        p.kind is Ollama ==> (profile_verdict(p).0 <==> (p.enabled && (exists|i: int|
            0 <= i < p.model@.len() && !is_white_space(#[trigger] p.model@[i])) && (p.base_url matches Some(
            u,
        ) && exists|i: int| 0 <= i < u@.len() && !is_white_space(#[trigger] u@[i])))),
        p.kind is Mock ==> (profile_verdict(p).0 <==> (p.enabled && exists|i: int|
            0 <= i < p.model@.len() && !is_white_space(#[trigger] p.model@[i]))),
{
}

/// A disabled profile never validates, whatever else it holds.
pub proof fn disabled_profile_never_validates(p: ModelProviderProfile)
    requires
        !p.enabled,
    ensures
        !profile_verdict(p).0,
{
}

/// The mock model's scene has at most the requested number of characters,
/// and it quotes the player's move in full when that fits.
pub proof fn mock_scene_quotes_the_move(prompt: Seq<char>, max_chars: nat)
    ensures
        mock_scene(prompt, max_chars as int).len() <= max_chars,
        (mock_opening() + mock_seed(prompt)).len() <= max_chars ==> has_piece(
            mock_scene(prompt, max_chars as int),
            mock_seed(prompt),
        ),
{
    let full = mock_opening() + mock_seed(prompt) + mock_closing();
    let seed = mock_seed(prompt);
    let i = mock_opening().len() as int;
    if (mock_opening() + seed).len() <= max_chars {
        let sc = mock_scene(prompt, max_chars as int);
        assert(sc.subrange(i, i + seed.len()) =~= seed);
    }
}

} // verus!
