//! LLM configuration document (several providers, several models, one active
//! model) and its resolution into the runtime configuration.
use vstd::prelude::*;
use vstd::string::{StringExecFns, StringSliceAdditionalSpecFns};
use vstd::utf8::{decode_utf8, encode_utf8_decode_utf8};

use crate::text::{
    chars_of, extend_chars, find, find_char, find_char_in, find_chars, lemma_find_from_found,
    owned, string_of, sub_chars, trim, trim_chars,
};

verus! {

/// Settings key of the configuration document.
pub const LLM_CONFIG_KEY: &'static str = "llm_config";

/// The seven reasoning levels; `none` sends no reasoning field.
pub const REASONING_EFFORTS: [&'static str; 7] = ["none", "minimal", "low", "medium", "high", "xhigh", "max"];

/// Reasoning level used when a model sets none.
pub const DEFAULT_REASONING_EFFORT: &'static str = "xhigh";

/// A provider endpoint; `api_key` holds the stored (encrypted) key.
#[derive(Debug, Clone, Default, PartialEq)]
pub struct ProviderEntry {
    pub id: String,
    pub name: String,
    pub base_url: String,
    pub api_key: String,
}

/// Model capabilities.
#[derive(Debug, Clone, Copy, Default, PartialEq, Eq)]
pub struct ModelCaps {
    /// Strict JSON-schema output; otherwise reviews run in plain-text mode.
    pub structured_output: bool,
    /// Requests carry the web search tool.
    pub web_search: bool,
}

/// Serde default of [`ModelCaps::structured_output`].
pub fn default_true() -> (r: bool)
    ensures
        r,
{
    true
}

/// Advanced model options read by the resolution (sampling numbers and the
/// extra request body are handled by the caller).
#[derive(Debug, Clone, Default, PartialEq)]
pub struct ModelAdvanced {
    /// One of [`REASONING_EFFORTS`]; `None` sends no reasoning field.
    pub reasoning_effort: Option<String>,
    /// Whether the provider may store requests (default false).
    pub store: Option<bool>,
}

/// A configured model.
#[derive(Debug, Clone, PartialEq)]
pub struct ModelEntry {
    pub id: String,
    pub provider_id: String,
    pub name: String,
    pub context_length: Option<u64>,
    pub caps: ModelCaps,
    pub advanced: ModelAdvanced,
}

/// Global request limits.
#[derive(Debug, Clone, Copy, PartialEq, Eq)]
pub struct LlmGlobal {
    pub timeout: u64,
    pub max_output_tokens_short: u32,
    pub max_output_tokens_long: u32,
}

/// Default request timeout in seconds.
pub fn default_timeout() -> (r: u64)
    ensures
        r == 120,
{
    120
}

/// Default output limit of short tasks.
pub fn default_short() -> (r: u32)
    ensures
        r == 4096,
{
    4096
}

/// Default output limit of long tasks.
pub fn default_long() -> (r: u32)
    ensures
        r == 8192,
{
    8192
}

impl Default for LlmGlobal {
    fn default() -> (r: Self)
        ensures
            r.timeout == 120,
            r.max_output_tokens_short == 4096,
            r.max_output_tokens_long == 8192,
    {
        LlmGlobal {
            timeout: default_timeout(),
            max_output_tokens_short: default_short(),
            max_output_tokens_long: default_long(),
        }
    }
}

/// The configuration document.
#[derive(Debug, Clone, Default, PartialEq)]
pub struct LlmConfigDoc {
    pub providers: Vec<ProviderEntry>,
    pub models: Vec<ModelEntry>,
    pub active_model_id: Option<String>,
    pub global: LlmGlobal,
}

/// The resolved runtime configuration (without the sampling numbers and the
/// extra request body, which the caller takes from the active model).
#[derive(Debug, Clone, PartialEq)]
pub struct LlmConfig {
    pub provider: String,
    pub base_url: String,
    /// The stored key of the provider (the caller decrypts it).
    pub api_key: String,
    pub model: String,
    pub structured_output: bool,
    pub web_search: bool,
    pub context_length: Option<u64>,
    pub reasoning_effort: Option<String>,
    pub store: bool,
    pub timeout: u64,
    /// Output limit of short tasks.
    pub max_tokens: u32,
    /// Output limit of long tasks (at least the short one).
    pub max_tokens_long: u32,
}

/// Loading state of a user's configuration.
#[derive(Debug, Clone)]
pub enum LlmLoad {
    /// Never configured.
    NotConfigured,
    /// Present but unusable, with the reason.
    Broken(String),
    Ready(LlmConfig),
}

/// Text with all trailing `/` removed (`trim_end_matches('/')`).
pub open spec fn strip_slashes(s: Seq<char>) -> Seq<char>
    decreases s.len(),
{
    if s.len() > 0 && s.last() == '/' {
        strip_slashes(s.drop_last())
    } else {
        s
    }
}

/// The host part of a base URL: the text after the first `://` (up to a
/// further `://`) and before the next `/`; the URL itself when it has no scheme.
pub open spec fn provider_of_spec(base_url: Seq<char>) -> Seq<char> {
    let t = strip_slashes(base_url);
    let mid = match find(t, "://"@) {
        Some(i) => {
            let rest = t.skip(i + 3);
            match find(rest, "://"@) {
                Some(j) => rest.take(j),
                None => rest,
            }
        },
        None => base_url,
    };
    match find_char(mid, '/') {
        Some(k) => mid.take(k),
        None => mid,
    }
}

pub fn strip_slashes_chars(v: &[char]) -> (r: Vec<char>)
    ensures
        r@ == strip_slashes(v@),
{
    let mut j: usize = v.len();
    assert(v@.take(j as int) == v@);
    while j > 0 && v[j - 1] == '/'
        invariant
            j <= v@.len(),
            strip_slashes(v@) == strip_slashes(v@.take(j as int)),
        decreases j,
    {
        assert(v@.take(j as int).drop_last() == v@.take(j - 1));
        j -= 1;
    }
    assert(v@.take(j as int).len() == 0 || v@.take(j as int).last() != '/');
    sub_chars(v, 0, j)
}

/// Provider name from a base URL (its host), used as a fallback label.
pub fn provider_of(base_url: &str) -> (r: String)
    ensures
        r@ == provider_of_spec(base_url@),
{
    let b = chars_of(base_url);
    let t = strip_slashes_chars(&b);
    let sep = chars_of("://");
    proof {
        reveal_strlit("://");
    }
    let mid = match find_chars(&t, &sep) {
        Some(i) => {
            proof {
                lemma_find_from_found(t@, sep@, 0);
            }
            let tl = t.len();
            assert(i + 3 <= tl);
            let rest = sub_chars(&t, i + 3, t.len());
            assert(rest@ == t@.skip(i + 3));
            match find_chars(&rest, &sep) {
                Some(j) => {
                    proof {
                        lemma_find_from_found(rest@, sep@, 0);
                    }
                    sub_chars(&rest, 0, j)
                },
                None => rest,
            }
        },
        None => b,
    };
    let host = match find_char_in(&mid, '/') {
        Some(k) => {
            proof {
                lemma_find_from_found(mid@, seq!['/'], 0);
            }
            sub_chars(&mid, 0, k)
        },
        None => mid,
    };
    string_of(&host)
}

impl ModelAdvanced {
    /// The reasoning level, defaulting to [`DEFAULT_REASONING_EFFORT`] when absent or empty.
    pub fn effort_or_default(&self) -> (r: Option<String>)
        ensures
            r matches Some(e) && e@ == match &self.reasoning_effort {
                Some(x) => if x@.len() > 0 {
                    x@
                } else {
                    "xhigh"@
                },
                None => "xhigh"@,
            },
    {
        match &self.reasoning_effort {
            Some(e) => {
                if chars_of(e.as_str()).len() > 0 {
                    Some(e.clone())
                } else {
                    Some(owned(DEFAULT_REASONING_EFFORT))
                }
            },
            None => Some(owned(DEFAULT_REASONING_EFFORT)),
        }
    }

    /// Whether the provider may store requests (default false).
    pub fn store_or_default(&self) -> (r: bool)
        ensures
            r == match self.store {
                Some(b) => b,
                None => false,
            },
    {
        match self.store {
            Some(b) => b,
            None => false,
        }
    }
}

/// Index of the active model: the one whose id is the active id, else the first.
pub open spec fn active_index_spec(models: Seq<Seq<char>>, active: Option<Seq<char>>, i: int) -> Option<int>
    decreases models.len() - i,
{
    if i < 0 || i >= models.len() {
        if models.len() > 0 {
            Some(0)
        } else {
            None
        }
    } else if active == Some(models[i]) {
        Some(i)
    } else {
        active_index_spec(models, active, i + 1)
    }
}

/// Index of the first provider with an id.
pub open spec fn provider_index_spec(ids: Seq<Seq<char>>, id: Seq<char>, i: int) -> Option<int>
    decreases ids.len() - i,
{
    if i < 0 || i >= ids.len() {
        None
    } else if ids[i] == id {
        Some(i)
    } else {
        provider_index_spec(ids, id, i + 1)
    }
}

/// Models of a document: `(id, provider_id, name)`.
pub open spec fn model_ids(d: LlmConfigDoc) -> Seq<Seq<char>> {
    d.models@.map_values(|m: ModelEntry| m.id@)
}

/// Provider ids of a document.
pub open spec fn provider_ids(d: LlmConfigDoc) -> Seq<Seq<char>> {
    d.providers@.map_values(|p: ProviderEntry| p.id@)
}

/// The active id of a document.
pub open spec fn active_of(d: LlmConfigDoc) -> Option<Seq<char>> {
    match d.active_model_id {
        Some(a) => Some(a@),
        None => None,
    }
}

/// The resolution outcome: the chosen model and provider indices, or the error text.
pub open spec fn resolve_choice(d: LlmConfigDoc) -> Result<(int, int), Seq<char>> {
    match active_index_spec(model_ids(d), active_of(d), 0) {
        None => Err("未配置模型"@),
        Some(mi) => {
            let m = d.models@[mi];
            match provider_index_spec(provider_ids(d), m.provider_id@, 0) {
                None => Err("模型 "@ + m.name@ + " 引用的 provider 不存在"@),
                Some(pi) => {
                    let p = d.providers@[pi];
                    if trim(p.base_url@).len() == 0 || trim(m.name@).len() == 0 {
                        Err("base_url 或 model 为空"@)
                    } else {
                        Ok((mi, pi))
                    }
                },
            }
        },
    }
}

/// The configuration resolved from a model and its provider.
pub open spec fn config_of(d: LlmConfigDoc, mi: int, pi: int, c: LlmConfig) -> bool {
    let m = d.models@[mi];
    let p = d.providers@[pi];
    &&& c.provider@ == (if trim(p.name@).len() == 0 {
        provider_of_spec(p.base_url@)
    } else {
        p.name@
    })
    &&& c.base_url@ == strip_slashes(p.base_url@)
    &&& c.api_key@ == p.api_key@
    &&& c.model@ == m.name@
    &&& c.structured_output == m.caps.structured_output
    &&& c.web_search == m.caps.web_search
    &&& c.context_length == m.context_length
    &&& (c.reasoning_effort matches Some(e) && e@ == match m.advanced.reasoning_effort {
        Some(x) => if x@.len() > 0 {
            x@
        } else {
            "xhigh"@
        },
        None => "xhigh"@,
    })
    &&& c.store == match m.advanced.store {
        Some(b) => b,
        None => false,
    }
    &&& c.timeout == (if d.global.timeout < 5 {
        5
    } else if d.global.timeout > 600 {
        600
    } else {
        d.global.timeout
    })
    &&& c.max_tokens == (if d.global.max_output_tokens_short < 512 {
        512
    } else {
        d.global.max_output_tokens_short
    })
    &&& c.max_tokens_long == (if d.global.max_output_tokens_long < c.max_tokens {
        c.max_tokens
    } else {
        d.global.max_output_tokens_long
    })
}

impl LlmConfigDoc {
    /// No provider and no model configured.
    pub fn is_empty(&self) -> (r: bool)
        ensures
            r == (self.providers@.len() == 0 && self.models@.len() == 0),
    {
        self.providers.len() == 0 && self.models.len() == 0
    }

    /// Index of the active model (the active id, else the first model).
    pub fn active_model_index(&self) -> (r: Option<usize>)
        ensures
            r matches Some(i) ==> active_index_spec(model_ids(*self), active_of(*self), 0) == Some(i as int)
                && i < self.models@.len(),
            r is None ==> active_index_spec(model_ids(*self), active_of(*self), 0) is None,
    {
        let ghost ids = model_ids(*self);
        let mut i: usize = 0;
        while i < self.models.len()
            invariant
                i <= self.models@.len(),
                ids == model_ids(*self),
                active_index_spec(ids, active_of(*self), 0) == active_index_spec(
                    ids,
                    active_of(*self),
                    i as int,
                ),
            decreases self.models@.len() - i,
        {
            if let Some(a) = &self.active_model_id {
                if self.models[i].id == *a {
                    assert(ids[i as int] == self.models@[i as int].id@);
                    return Some(i);
                }
            }
            assert(ids[i as int] == self.models@[i as int].id@);
            i += 1;
        }
        if self.models.len() > 0 {
            Some(0)
        } else {
            None
        }
    }

    fn provider_index(&self, id: &String) -> (r: Option<usize>)
        ensures
            r matches Some(i) ==> provider_index_spec(provider_ids(*self), id@, 0) == Some(i as int) && i
                < self.providers@.len(),
            r is None ==> provider_index_spec(provider_ids(*self), id@, 0) is None,
    {
        let ghost ids = provider_ids(*self);
        let mut i: usize = 0;
        while i < self.providers.len()
            invariant
                i <= self.providers@.len(),
                ids == provider_ids(*self),
                provider_index_spec(ids, id@, 0) == provider_index_spec(ids, id@, i as int),
            decreases self.providers@.len() - i,
        {
            assert(ids[i as int] == self.providers@[i as int].id@);
            if self.providers[i].id == *id {
                return Some(i);
            }
            i += 1;
        }
        None
    }

    /// Resolves the active model (the active id, else the first model) and its
    /// provider into the runtime configuration; `Err` carries the reason why a
    /// present configuration cannot be used.
    pub fn resolve(&self) -> (r: Result<LlmConfig, String>)
        ensures
            match (resolve_choice(*self), r) {
                (Ok((mi, pi)), Ok(c)) => config_of(*self, mi, pi, c),
                (Err(e), Err(m)) => m@ == e,
                _ => false,
            },
    {
        let mi = match self.active_model_index() {
            Some(i) => i,
            None => return Err(owned("未配置模型")),
        };
        let model = &self.models[mi];
        let pi = match self.provider_index(&model.provider_id) {
            Some(i) => i,
            None => {
                let mut m = owned("模型 ");
                m.append(model.name.as_str());
                m.append(" 引用的 provider 不存在");
                return Err(m);
            },
        };
        let provider = &self.providers[pi];
        if trim_chars(&chars_of(provider.base_url.as_str())).len() == 0 || trim_chars(
            &chars_of(model.name.as_str()),
        ).len() == 0 {
            return Err(owned("base_url 或 model 为空"));
        }
        let provider_label = if trim_chars(&chars_of(provider.name.as_str())).len() == 0 {
            provider_of(provider.base_url.as_str())
        } else {
            provider.name.clone()
        };
        let base_url = string_of(&strip_slashes_chars(&chars_of(provider.base_url.as_str())));
        let timeout = if self.global.timeout < 5 {
            5
        } else if self.global.timeout > 600 {
            600
        } else {
            self.global.timeout
        };
        let max_tokens = if self.global.max_output_tokens_short < 512 {
            512
        } else {
            self.global.max_output_tokens_short
        };
        let max_tokens_long = if self.global.max_output_tokens_long < max_tokens {
            max_tokens
        } else {
            self.global.max_output_tokens_long
        };
        Ok(
            LlmConfig {
                provider: provider_label,
                base_url,
                api_key: provider.api_key.clone(),
                model: model.name.clone(),
                structured_output: model.caps.structured_output,
                web_search: model.caps.web_search,
                context_length: model.context_length,
                reasoning_effort: model.advanced.effort_or_default(),
                store: model.advanced.store_or_default(),
                timeout,
                max_tokens,
                max_tokens_long,
            },
        )
    }
}

/// The classification of a parsed document: ready when it resolves, broken with
/// the reason and a pointer to the settings page otherwise.
pub fn classify(doc: LlmConfigDoc) -> (r: LlmLoad)
    ensures
        match (resolve_choice(doc), r) {
            (Ok((mi, pi)), LlmLoad::Ready(c)) => config_of(doc, mi, pi, c),
            (Err(e), LlmLoad::Broken(m)) => m@ == e + "（请到 设置 → 模型服务 检查模型与 Provider 引用）"@,
            _ => false,
        },
{
    match doc.resolve() {
        Ok(c) => LlmLoad::Ready(c),
        Err(reason) => {
            let mut m = reason;
            m.append("（请到 设置 → 模型服务 检查模型与 Provider 引用）");
            LlmLoad::Broken(m)
        },
    }
}

/// The masked display of a stored key: `****` for keys of at most 8 bytes,
/// else `****...` and the last 4 bytes.
pub open spec fn mask_spec(bytes: Seq<u8>) -> Seq<char> {
    if bytes.len() <= 8 {
        "****"@
    } else {
        "****..."@ + decode_utf8(bytes.subrange(bytes.len() - 4, bytes.len() as int))
    }
}

/// Masks a key for display.
pub fn mask_key(k: &str) -> (r: String)
    requires
        k.spec_bytes().len() <= usize::MAX,
        k.spec_bytes().len() > 8 ==> vstd::utf8::is_char_boundary(k.spec_bytes(), k.spec_bytes().len() - 4),
    ensures
        r@ == mask_spec(k.spec_bytes()),
{
    if k.len() <= 8 {
        owned("****")
    } else {
        let (_, tail) = k.split_at(k.len() - 4);
        proof {
            encode_utf8_decode_utf8(tail@);
        }
        let mut m = owned("****...");
        m.append(tail);
        m
    }
}

/// `v` clamped to `lo..=hi`.
pub open spec fn clamp_u64(v: u64, lo: u64, hi: u64) -> u64 {
    if v < lo {
        lo
    } else if v > hi {
        hi
    } else {
        v
    }
}

/// Short output limit of a migrated configuration: the legacy limit
/// (truncated to 32 bits), at least 512.
pub open spec fn legacy_short(max_tokens: u64) -> u32 {
    let t = max_tokens as u32;
    if t < 512 {
        512
    } else {
        t
    }
}

/// The configuration document that replaces the legacy per-key settings: one
/// provider `p_legacy` named after the host of the base URL, one model
/// `m_legacy` that becomes active (reasoning `medium` where thinking was on,
/// else the default), the timeout clamped to 5..=600 seconds, and output limits
/// of at least 512 (long: at least 8192). `api_key` is the stored form of the key.
pub fn legacy_doc(base_url: &str, api_key: String, model: String, thinking: bool, timeout: u64, max_tokens: u64) -> (d:
    LlmConfigDoc)
    ensures
        d.providers@.len() == 1,
        d.providers@[0].id@ == "p_legacy"@,
        d.providers@[0].name@ == provider_of_spec(base_url@),
        d.providers@[0].base_url@ == strip_slashes(base_url@),
        d.providers@[0].api_key == api_key,
        d.models@.len() == 1,
        d.models@[0].id@ == "m_legacy"@,
        d.models@[0].provider_id@ == "p_legacy"@,
        d.models@[0].name == model,
        d.models@[0].context_length is None,
        d.models@[0].caps.structured_output,
        !d.models@[0].caps.web_search,
        d.models@[0].advanced.reasoning_effort matches Some(e) && e@ == (if thinking {
            "medium"@
        } else {
            "xhigh"@
        }),
        d.models@[0].advanced.store == Some(false),
        d.active_model_id matches Some(a) && a@ == "m_legacy"@,
        d.global.timeout == clamp_u64(timeout, 5, 600),
        d.global.max_output_tokens_short == legacy_short(max_tokens),
        d.global.max_output_tokens_long == (if legacy_short(max_tokens) < 8192 {
            8192
        } else {
            legacy_short(max_tokens)
        }),
{
    let b = chars_of(base_url);
    let trimmed = strip_slashes_chars(&b);
    let provider = ProviderEntry {
        id: owned("p_legacy"),
        name: provider_of(base_url),
        base_url: string_of(&trimmed),
        api_key,
    };
    let effort = if thinking {
        owned("medium")
    } else {
        owned(DEFAULT_REASONING_EFFORT)
    };
    let entry = ModelEntry {
        id: owned("m_legacy"),
        provider_id: owned("p_legacy"),
        name: model,
        context_length: None,
        caps: ModelCaps { structured_output: true, web_search: false },
        advanced: ModelAdvanced { reasoning_effort: Some(effort), store: Some(false) },
    };
    let t = if timeout < 5 {
        5
    } else if timeout > 600 {
        600
    } else {
        timeout
    };
    let narrowed = (#[verifier::truncate] (max_tokens as u32));
    let short = if narrowed < 512 {
        512
    } else {
        narrowed
    };
    let long = if short < default_long() {
        default_long()
    } else {
        short
    };
    let mut providers: Vec<ProviderEntry> = Vec::new();
    providers.push(provider);
    let mut models: Vec<ModelEntry> = Vec::new();
    models.push(entry);
    LlmConfigDoc {
        providers,
        models,
        active_model_id: Some(owned("m_legacy")),
        global: LlmGlobal { timeout: t, max_output_tokens_short: short, max_output_tokens_long: long },
    }
}

} // verus!
