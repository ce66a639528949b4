//! Editing rules of the LLM settings endpoints: validation of submitted
//! providers, models and global limits, and the edits of the configuration
//! document (upsert, replace, cascade delete, healing of the active model).
use vstd::prelude::*;
use vstd::string::StringExecFns;

use crate::error::{AppError, AppErrorView};
use crate::json::{member, str_of, text_member, text_member_of, Json, JsonView};
use crate::random_id::{hex_spec, prefixed_hex, random_bytes_6};
use crate::settings::{
    provider_ids, provider_index_spec, provider_of, provider_of_spec, strip_slashes, strip_slashes_chars, LlmConfigDoc,
    LlmGlobal, ModelEntry, ProviderEntry, DEFAULT_REASONING_EFFORT,
};
use crate::routes::turn::as_index;
use crate::text::{
    chars_of, decimal, extend_chars, opt_str_view, opt_view, owned, push_decimal, starts_with, starts_with_chars, str_eq,
    string_of, trim, trim_chars,
};

verus! {

/// The first violated global limit, if any.
pub open spec fn global_error(g: LlmGlobal) -> Option<Seq<char>> {
    if g.timeout < 5 || g.timeout > 600 {
        Some("timeout 需在 5-600 秒"@)
    } else if g.max_output_tokens_short < 512 {
        Some("max_output_tokens_short 至少 512"@)
    } else if g.max_output_tokens_long < g.max_output_tokens_short {
        Some("max_output_tokens_long 不能小于短任务档"@)
    } else {
        None
    }
}

/// The view of a rejection with a message.
pub open spec fn rejected<T>(r: Result<T, AppError>, msg: Seq<char>) -> bool {
    r matches Err(e) && e@ == AppErrorView::BadRequest(msg)
}

/// Checks the global limits: a timeout of 5 to 600 seconds, at least 512
/// output tokens for short tasks, and no fewer for long tasks.
pub fn check_global(g: &LlmGlobal) -> (r: Result<(), AppError>)
    ensures
        match global_error(*g) {
            None => r is Ok,
            Some(m) => rejected(r, m),
        },
{
    if g.timeout < 5 || g.timeout > 600 {
        return Err(AppError::BadRequest(String::from_str("timeout 需在 5-600 秒")));
    }
    if g.max_output_tokens_short < 512 {
        return Err(AppError::BadRequest(String::from_str("max_output_tokens_short 至少 512")));
    }
    if g.max_output_tokens_long < g.max_output_tokens_short {
        return Err(AppError::BadRequest(String::from_str("max_output_tokens_long 不能小于短任务档")));
    }
    Ok(())
}

/// The stored key after an edit.
#[derive(Debug, Clone, PartialEq)]
pub enum ApiKey {
    /// Store this (already encrypted, or empty) value.
    Stored(String),
    /// Encrypt this plain key and store the result.
    Encrypt(String),
}

pub enum ApiKeyView {
    Stored(Seq<char>),
    Encrypt(Seq<char>),
}

impl View for ApiKey {
    type V = ApiKeyView;

    open spec fn view(&self) -> ApiKeyView {
        match self {
            ApiKey::Stored(s) => ApiKeyView::Stored(s@),
            ApiKey::Encrypt(s) => ApiKeyView::Encrypt(s@),
        }
    }
}

/// A validated provider entry whose key may still need encrypting.
#[derive(Debug, Clone, PartialEq)]
pub struct ProviderDraft {
    pub id: String,
    pub name: String,
    pub base_url: String,
    pub api_key: ApiKey,
}

pub struct ProviderDraftView {
    pub id: Seq<char>,
    pub name: Seq<char>,
    pub base_url: Seq<char>,
    pub api_key: ApiKeyView,
}

impl View for ProviderDraft {
    type V = ProviderDraftView;

    open spec fn view(&self) -> ProviderDraftView {
        ProviderDraftView { id: self.id@, name: self.name@, base_url: self.base_url@, api_key: self.api_key@ }
    }
}

/// A submitted id, or `prefix` and the fresh bytes in hexadecimal when blank.
pub open spec fn draft_id(given: Seq<char>, prefix: Seq<char>, fresh: Seq<u8>) -> Seq<char> {
    if given.len() > 0 {
        given
    } else {
        prefix + hex_spec(fresh)
    }
}

/// The stored key of the first provider with an id (empty when none).
pub open spec fn old_key(doc: LlmConfigDoc, id: Seq<char>) -> Seq<char> {
    match provider_index_spec(provider_ids(doc), id, 0) {
        Some(i) => doc.providers@[i].api_key@,
        None => Seq::empty(),
    }
}

/// The key after an edit: an empty key clears it, a masked key (starting
/// with `*`) keeps the stored one, anything else is a new key to encrypt.
pub open spec fn key_update(raw: Seq<char>, old: Seq<char>) -> ApiKeyView {
    if raw.len() == 0 {
        ApiKeyView::Stored(Seq::empty())
    } else if raw[0] == '*' {
        ApiKeyView::Stored(old)
    } else {
        ApiKeyView::Encrypt(raw)
    }
}

/// The outcome of validating a submitted provider, given the fresh bytes
/// used for a blank id.
pub open spec fn provider_spec(pv: JsonView, doc: LlmConfigDoc, fresh: Seq<u8>) -> Result<ProviderDraftView, Seq<char>> {
    let name = text_member(pv, "name"@);
    let base_url = strip_slashes(text_member(pv, "base_url"@));
    if !(starts_with(base_url, "http://"@) || starts_with(base_url, "https://"@)) {
        Err("provider「"@ + name + "」base_url 需以 http(s):// 开头"@)
    } else {
        let id = draft_id(text_member(pv, "id"@), "prov-"@, fresh);
        Ok(
            ProviderDraftView {
                id,
                name,
                base_url,
                api_key: key_update(text_member(pv, "api_key"@), old_key(doc, id)),
            },
        )
    }
}

/// The result of a validation as a view.
pub open spec fn result_view<T: View>(r: Result<T, AppError>) -> Result<T::V, AppErrorView> {
    match r {
        Ok(x) => Ok(x@),
        Err(e) => Err(e@),
    }
}

/// The spec outcome lifted to the error view.
pub open spec fn outcome<V>(r: Result<V, Seq<char>>) -> Result<V, AppErrorView> {
    match r {
        Ok(x) => Ok(x),
        Err(m) => Err(AppErrorView::BadRequest(m)),
    }
}

fn draft_id_of(given: Vec<char>, prefix: &str, fresh: &[u8]) -> (r: String)
    ensures
        r@ == draft_id(given@, prefix@, fresh@),
{
    if given.len() > 0 {
        string_of(&given)
    } else {
        prefixed_hex(prefix, fresh)
    }
}

fn old_key_of(doc: &LlmConfigDoc, id: &String) -> (r: String)
    ensures
        r@ == old_key(*doc, id@),
{
    let ghost ids = provider_ids(*doc);
    let mut i: usize = 0;
    while i < doc.providers.len()
        invariant
            i <= doc.providers@.len(),
            ids == provider_ids(*doc),
            provider_index_spec(ids, id@, 0) == provider_index_spec(ids, id@, i as int),
        decreases doc.providers@.len() - i,
    {
        assert(ids[i as int] == doc.providers@[i as int].id@);
        if str_eq(doc.providers[i].id.as_str(), id.as_str()) {
            return doc.providers[i].api_key.clone();
        }
        i += 1;
    }
    String::new()
}

/// Validates a submitted provider with the given fresh bytes for a blank id.
pub fn validate_provider_entry_with(pv: &Json, old_doc: &LlmConfigDoc, fresh: &[u8]) -> (r: Result<
    ProviderDraft,
    AppError,
>)
    ensures
        result_view(r) == outcome(provider_spec(pv@, *old_doc, fresh@)),
{
    let name = text_member_of(pv, "name");
    let base_url = strip_slashes_chars(&text_member_of(pv, "base_url"));
    if !(starts_with_chars(&base_url, &chars_of("http://")) || starts_with_chars(&base_url, &chars_of("https://"))) {
        let mut m = chars_of("provider「");
        let mut n = name;
        m.append(&mut n);
        extend_chars(&mut m, "」base_url 需以 http(s):// 开头");
        return Err(AppError::BadRequest(string_of(&m)));
    }
    let id = draft_id_of(text_member_of(pv, "id"), "prov-", fresh);
    let raw = text_member_of(pv, "api_key");
    let api_key = if raw.len() == 0 {
        ApiKey::Stored(String::new())
    } else if raw[0] == '*' {
        ApiKey::Stored(old_key_of(old_doc, &id))
    } else {
        ApiKey::Encrypt(string_of(&raw))
    };
    Ok(ProviderDraft { id, name: string_of(&name), base_url: string_of(&base_url), api_key })
}

/// Validates a submitted provider: its base URL (trimmed, trailing `/`
/// removed) must start with `http://` or `https://`; a blank id gets a fresh
/// random one; the key follows [`key_update`].
pub fn validate_provider_entry(pv: &Json, old_doc: &LlmConfigDoc) -> (r: Result<ProviderDraft, AppError>)
    ensures
        exists|b: Seq<u8>| b.len() == 6 && result_view(r) == outcome(provider_spec(pv@, *old_doc, b)),
{
    let b = random_bytes_6();
    validate_provider_entry_with(pv, old_doc, &b)
}

/// `model[i]` and a message.
pub open spec fn model_message(i: nat, msg: Seq<char>) -> Seq<char> {
    "model["@ + decimal(i) + "] "@ + msg
}

fn model_message_of(i: usize, msg: &str) -> (r: String)
    ensures
        r@ == model_message(i as nat, msg@),
{
    let mut m = chars_of("model[");
    push_decimal(&mut m, i as u64);
    extend_chars(&mut m, "] ");
    extend_chars(&mut m, msg);
    string_of(&m)
}

/// The ids of provider entries.
pub open spec fn entry_ids(ps: Seq<ProviderEntry>) -> Seq<Seq<char>> {
    ps.map_values(|p: ProviderEntry| p.id@)
}

/// The identity of a submitted model: `(id, provider_id, name)`.
pub open spec fn model_head_spec(mv: JsonView, provider_ids: Seq<Seq<char>>, i: nat, fresh: Seq<u8>) -> Result<
    (Seq<char>, Seq<char>, Seq<char>),
    Seq<char>,
> {
    let provider_id = text_member(mv, "provider_id"@);
    let name = text_member(mv, "name"@);
    if !provider_ids.contains(provider_id) {
        Err(model_message(i, "引用的 provider 不存在"@))
    } else if name.len() == 0 {
        Err(model_message(i, "名称不能为空"@))
    } else {
        Ok((draft_id(text_member(mv, "id"@), "model-"@, fresh), provider_id, name))
    }
}

/// Validates the identity of the `i`-th submitted model with the given fresh
/// bytes for a blank id: it must reference an existing provider and have a name.
pub fn validate_model_head_with(mv: &Json, providers: &[ProviderEntry], i: usize, fresh: &[u8]) -> (r: Result<
    (String, String, String),
    AppError,
>)
    ensures
        outcome(model_head_spec(mv@, entry_ids(providers@), i as nat, fresh@))
            == match r {
            Ok((x, y, z)) => Ok((x@, y@, z@)),
            Err(e) => Err(e@),
        },
{
    let ghost ids = entry_ids(providers@);
    let provider_id = text_member_of(mv, "provider_id");
    let mut found = false;
    let mut k: usize = 0;
    while k < providers.len()
        invariant
            k <= providers@.len(),
            ids == entry_ids(providers@),
            found == (exists|t: int| 0 <= t < k && ids[t] == provider_id@),
        decreases providers@.len() - k,
    {
        assert(ids[k as int] == providers@[k as int].id@);
        if str_eq(providers[k].id.as_str(), string_of(&provider_id).as_str()) {
            found = true;
        }
        k += 1;
    }
    if !found {
        assert(!ids.contains(provider_id@));
        return Err(AppError::BadRequest(model_message_of(i, "引用的 provider 不存在")));
    }
    assert(ids.contains(provider_id@));
    let name = text_member_of(mv, "name");
    if name.len() == 0 {
        return Err(AppError::BadRequest(model_message_of(i, "名称不能为空")));
    }
    let id = draft_id_of(text_member_of(mv, "id"), "model-", fresh);
    Ok((id, string_of(&provider_id), string_of(&name)))
}

/// Validates the identity of the `i`-th submitted model; a blank id gets a
/// fresh random one.
pub fn validate_model_head(mv: &Json, providers: &[ProviderEntry], i: usize) -> (r: Result<
    (String, String, String),
    AppError,
>)
    ensures
        exists|fresh: Seq<u8>|
            fresh.len() == 6 && outcome(
                model_head_spec(mv@, entry_ids(providers@), i as nat, fresh),
            ) == match r {
                Ok((x, y, z)) => Ok((x@, y@, z@)),
                Err(e) => Err(e@),
            },
{
    let b = random_bytes_6();
    let r = validate_model_head_with(mv, providers, i, &b);
    assert(b@.len() == 6);
    r
}

/// The accepted reasoning levels.
pub open spec fn effort_names() -> Seq<Seq<char>> {
    seq!["none"@, "minimal"@, "low"@, "medium"@, "high"@, "xhigh"@, "max"@]
}

/// A submitted reasoning level: blank means none, otherwise one of
/// [`effort_names`] (trimmed).
pub open spec fn effort_spec(effort: Option<Seq<char>>, i: nat) -> Result<Option<Seq<char>>, Seq<char>> {
    match effort {
        None => Ok(None),
        Some(e) => {
            let t = crate::text::trim(e);
            if t.len() == 0 {
                Ok(None)
            } else if effort_names().contains(t) {
                Ok(Some(t))
            } else {
                Err(model_message(i, "思考强度非法：可选 none/minimal/low/medium/high/xhigh/max"@))
            }
        },
    }
}

/// Normalises the reasoning level of the `i`-th submitted model.
pub fn normalize_effort(effort: Option<&str>, i: usize) -> (r: Result<Option<String>, AppError>)
    ensures
        outcome(effort_spec(opt_str_view(effort), i as nat)) == match r {
            Ok(x) => Ok(opt_view(x)),
            Err(e) => Err(e@),
        },
{
    let e = match effort {
        None => return Ok(None),
        Some(e) => e,
    };
    let t = crate::text::trim_chars(&chars_of(e));
    if t.len() == 0 {
        return Ok(None);
    }
    let ts = string_of(&t);
    let s = ts.as_str();
    proof {
        reveal_strlit("none");
        reveal_strlit("minimal");
        reveal_strlit("low");
        reveal_strlit("medium");
        reveal_strlit("high");
        reveal_strlit("xhigh");
        reveal_strlit("max");
    }
    let known = str_eq(s, "none") || str_eq(s, "minimal") || str_eq(s, "low") || str_eq(s, "medium") || str_eq(
        s,
        "high",
    ) || str_eq(s, "xhigh") || str_eq(s, "max");
    proof {
        let names = effort_names();
        if known {
            assert(names.contains(t@)) by {
                if t@ == "none"@ {
                    assert(names[0] == t@);
                } else if t@ == "minimal"@ {
                    assert(names[1] == t@);
                } else if t@ == "low"@ {
                    assert(names[2] == t@);
                } else if t@ == "medium"@ {
                    assert(names[3] == t@);
                } else if t@ == "high"@ {
                    assert(names[4] == t@);
                } else if t@ == "xhigh"@ {
                    assert(names[5] == t@);
                } else {
                    assert(names[6] == t@);
                }
            }
        } else {
            assert(!names.contains(t@)) by {
                if names.contains(t@) {
                    let k = choose|k: int| 0 <= k < names.len() && names[k] == t@;
                    assert(names[k] == t@);
                }
            }
        }
    }
    if !known {
        return Err(
            AppError::BadRequest(model_message_of(i, "思考强度非法：可选 none/minimal/low/medium/high/xhigh/max")),
        );
    }
    Ok(Some(ts))
}

/// Checks the context length of the `i`-th submitted model (1024 to 10 000 000 when given).
pub fn check_context_length(context_length: Option<u64>, i: usize) -> (r: Result<(), AppError>)
    ensures
        match context_length {
            Some(v) => if 1024 <= v <= 10_000_000 {
                r is Ok
            } else {
                rejected(r, model_message(i as nat, "上下文长度需在 1024-10000000 之间（元数据仅作展示与输入护栏）"@))
            },
            None => r is Ok,
        },
{
    if let Some(v) = context_length {
        if v < 1024 || v > 10_000_000 {
            return Err(
                AppError::BadRequest(
                    model_message_of(i, "上下文长度需在 1024-10000000 之间（元数据仅作展示与输入护栏）"),
                ),
            );
        }
    }
    Ok(())
}

/// The providers without those with the id, in order.
pub open spec fn without_provider(ps: Seq<ProviderEntry>, id: Seq<char>) -> Seq<ProviderEntry>
    decreases ps.len(),
{
    if ps.len() == 0 {
        Seq::empty()
    } else {
        (if ps[0].id@ == id {
            Seq::empty()
        } else {
            seq![ps[0]]
        }) + without_provider(ps.skip(1), id)
    }
}

/// The key a model is filtered by: its provider or its own id.
pub open spec fn model_key(m: ModelEntry, by_provider: bool) -> Seq<char> {
    if by_provider {
        m.provider_id@
    } else {
        m.id@
    }
}

/// The models whose key differs from `key`, in order.
pub open spec fn models_without(ms: Seq<ModelEntry>, key: Seq<char>, by_provider: bool) -> Seq<ModelEntry>
    decreases ms.len(),
{
    if ms.len() == 0 {
        Seq::empty()
    } else {
        (if model_key(ms[0], by_provider) == key {
            Seq::empty()
        } else {
            seq![ms[0]]
        }) + models_without(ms.skip(1), key, by_provider)
    }
}

/// A model with the id exists.
pub open spec fn has_model(ms: Seq<ModelEntry>, id: Seq<char>) -> bool {
    exists|j: int| 0 <= j < ms.len() && (#[trigger] ms[j]).id@ == id
}

/// The id of the first model.
pub open spec fn first_model_id(ms: Seq<ModelEntry>) -> Option<Seq<char>> {
    if ms.len() > 0 {
        Some(ms[0].id@)
    } else {
        None
    }
}

/// The active model after an edit: kept while it names a model, else the
/// first model (none when there are no models).
pub open spec fn healed_active(ms: Seq<ModelEntry>, active: Option<Seq<char>>) -> Option<Seq<char>> {
    match active {
        Some(a) => if has_model(ms, a) {
            Some(a)
        } else {
            first_model_id(ms)
        },
        None => first_model_id(ms),
    }
}

/// The model ids.
pub open spec fn model_id_seq(ms: Seq<ModelEntry>) -> Seq<Seq<char>> {
    ms.map_values(|m: ModelEntry| m.id@)
}

/// Insert or replace by id: the first entry with the same id is replaced,
/// otherwise the entry is appended.
pub open spec fn upsert<T>(s: Seq<T>, ids: Seq<Seq<char>>, id: Seq<char>, x: T) -> Seq<T> {
    match provider_index_spec(ids, id, 0) {
        Some(k) => s.update(k, x),
        None => s.push(x),
    }
}

fn drop_providers(ps: Vec<ProviderEntry>, id: &str) -> (r: (Vec<ProviderEntry>, bool))
    ensures
        r.0@ == without_provider(ps@, id@),
        r.1 == entry_ids(ps@).contains(id@),
{
    let ghost orig = ps@;
    let mut src = ps;
    let mut out: Vec<ProviderEntry> = Vec::new();
    let mut removed = false;
    let ghost mut k: int = 0;
    while src.len() > 0
        invariant
            0 <= k <= orig.len(),
            src@ == orig.skip(k),
            out@ + without_provider(src@, id@) == without_provider(orig, id@),
            removed == (exists|t: int| 0 <= t < k && orig[t].id@ == id@),
        decreases src@.len(),
    {
        let ghost before = src@;
        let p = src.remove(0);
        proof {
            assert(before[0] == orig[k]);
            assert(src@ =~= orig.skip(k + 1));
            assert(before.skip(1) =~= src@);
        }
        if str_eq(p.id.as_str(), id) {
            removed = true;
            proof {
                assert(out@ + without_provider(src@, id@) =~= out@ + (Seq::empty() + without_provider(src@, id@)));
            }
        } else {
            let ghost o = out@;
            out.push(p);
            proof {
                assert(o + (seq![p] + without_provider(src@, id@)) =~= o.push(p) + without_provider(src@, id@));
            }
        }
        proof {
            k = k + 1;
        }
    }
    proof {
        assert(k == orig.len());
        assert(out@ =~= without_provider(orig, id@));
        let ids = entry_ids(orig);
        if removed {
            let t = choose|t: int| 0 <= t < k && orig[t].id@ == id@;
            assert(ids[t] == id@);
        }
        if ids.contains(id@) {
            let t = choose|t: int| 0 <= t < ids.len() && ids[t] == id@;
            assert(orig[t].id@ == id@);
        }
    }
    (out, removed)
}

fn drop_models(ms: Vec<ModelEntry>, key: &str, by_provider: bool) -> (r: (Vec<ModelEntry>, bool))
    ensures
        r.0@ == models_without(ms@, key@, by_provider),
        r.1 == (exists|t: int| 0 <= t < ms@.len() && model_key(ms@[t], by_provider) == key@),
{
    let ghost orig = ms@;
    let mut src = ms;
    let mut out: Vec<ModelEntry> = Vec::new();
    let mut removed = false;
    let ghost mut k: int = 0;
    while src.len() > 0
        invariant
            0 <= k <= orig.len(),
            src@ == orig.skip(k),
            out@ + models_without(src@, key@, by_provider) == models_without(orig, key@, by_provider),
            removed == (exists|t: int| 0 <= t < k && model_key(orig[t], by_provider) == key@),
        decreases src@.len(),
    {
        let ghost before = src@;
        let m = src.remove(0);
        proof {
            assert(before[0] == orig[k]);
            assert(src@ =~= orig.skip(k + 1));
            assert(before.skip(1) =~= src@);
        }
        let hit = if by_provider {
            str_eq(m.provider_id.as_str(), key)
        } else {
            str_eq(m.id.as_str(), key)
        };
        if hit {
            removed = true;
            proof {
                assert(out@ + models_without(src@, key@, by_provider) =~= out@ + (Seq::empty() + models_without(
                    src@,
                    key@,
                    by_provider,
                )));
            }
        } else {
            let ghost o = out@;
            out.push(m);
            proof {
                assert(o + (seq![m] + models_without(src@, key@, by_provider)) =~= o.push(m) + models_without(
                    src@,
                    key@,
                    by_provider,
                ));
            }
        }
        proof {
            k = k + 1;
        }
    }
    proof {
        assert(out@ =~= models_without(orig, key@, by_provider));
    }
    (out, removed)
}

fn heal_active(ms: &Vec<ModelEntry>, active: Option<String>) -> (r: Option<String>)
    ensures
        opt_view(r) == healed_active(ms@, opt_view(active)),
{
    match active {
        Some(a) => {
            let mut k: usize = 0;
            while k < ms.len()
                invariant
                    k <= ms@.len(),
                    opt_view(active) == Some(a@),
                    forall|t: int| 0 <= t < k ==> (#[trigger] ms@[t]).id@ != a@,
                decreases ms@.len() - k,
            {
                if str_eq(ms[k].id.as_str(), a.as_str()) {
                    assert(ms@[k as int].id@ == a@);
                    return Some(a);
                }
                k += 1;
            }
        },
        None => {},
    }
    if ms.len() > 0 {
        Some(ms[0].id.clone())
    } else {
        None
    }
}

/// Deletes a provider together with its models and heals the active model;
/// `NotFound` when no provider has the id.
pub fn delete_provider(doc: LlmConfigDoc, id: &str) -> (r: Result<LlmConfigDoc, AppError>)
    ensures
        !entry_ids(doc.providers@).contains(id@) ==> r == Err::<LlmConfigDoc, AppError>(AppError::NotFound),
        entry_ids(doc.providers@).contains(id@) ==> (r matches Ok(d) && d.providers@ == without_provider(
            doc.providers@,
            id@,
        ) && d.models@ == models_without(doc.models@, id@, true) && opt_view(d.active_model_id)
            == healed_active(d.models@, opt_view(doc.active_model_id)) && d.global == doc.global),
{
    let LlmConfigDoc { providers, models, active_model_id, global } = doc;
    let (providers, removed) = drop_providers(providers, id);
    if !removed {
        return Err(AppError::NotFound);
    }
    let (models, _) = drop_models(models, id, true);
    let active_model_id = heal_active(&models, active_model_id);
    Ok(LlmConfigDoc { providers, models, active_model_id, global })
}

/// Deletes a model and heals the active model; `NotFound` when no model has the id.
pub fn delete_model(doc: LlmConfigDoc, id: &str) -> (r: Result<LlmConfigDoc, AppError>)
    ensures
        !has_model(doc.models@, id@) ==> r == Err::<LlmConfigDoc, AppError>(AppError::NotFound),
        has_model(doc.models@, id@) ==> (r matches Ok(d) && d.providers == doc.providers && d.models@
            == models_without(doc.models@, id@, false) && opt_view(d.active_model_id) == healed_active(
            d.models@,
            opt_view(doc.active_model_id),
        ) && d.global == doc.global),
{
    let LlmConfigDoc { providers, models, active_model_id, global } = doc;
    let (models, removed) = drop_models(models, id, false);
    if !removed {
        return Err(AppError::NotFound);
    }
    let active_model_id = heal_active(&models, active_model_id);
    Ok(LlmConfigDoc { providers, models, active_model_id, global })
}

fn provider_position(ps: &Vec<ProviderEntry>, id: &str) -> (r: Option<usize>)
    ensures
        r matches Some(k) ==> provider_index_spec(entry_ids(ps@), id@, 0) == Some(k as int) && k < ps@.len(),
        r is None ==> provider_index_spec(entry_ids(ps@), id@, 0) is None,
{
    let ghost v = entry_ids(ps@);
    let mut k: usize = 0;
    while k < ps.len()
        invariant
            k <= ps@.len(),
            v == entry_ids(ps@),
            provider_index_spec(v, id@, 0) == provider_index_spec(v, id@, k as int),
        decreases ps@.len() - k,
    {
        assert(v[k as int] == ps@[k as int].id@);
        if str_eq(ps[k].id.as_str(), id) {
            return Some(k);
        }
        k += 1;
    }
    None
}

fn model_position(ms: &Vec<ModelEntry>, id: &str) -> (r: Option<usize>)
    ensures
        r matches Some(k) ==> provider_index_spec(model_id_seq(ms@), id@, 0) == Some(k as int) && k < ms@.len(),
        r is None ==> provider_index_spec(model_id_seq(ms@), id@, 0) is None,
{
    let ghost v = model_id_seq(ms@);
    let mut k: usize = 0;
    while k < ms.len()
        invariant
            k <= ms@.len(),
            v == model_id_seq(ms@),
            provider_index_spec(v, id@, 0) == provider_index_spec(v, id@, k as int),
        decreases ms@.len() - k,
    {
        assert(v[k as int] == ms@[k as int].id@);
        if str_eq(ms[k].id.as_str(), id) {
            return Some(k);
        }
        k += 1;
    }
    None
}

/// A first match of an id really has that id.
pub proof fn lemma_index_found(ids: Seq<Seq<char>>, id: Seq<char>, i: int)
    requires
        0 <= i,
    ensures
        provider_index_spec(ids, id, i) matches Some(k) ==> i <= k < ids.len() && ids[k] == id,
        provider_index_spec(ids, id, i) is None ==> forall|t: int| i <= t < ids.len() ==> ids[t] != id,
    decreases ids.len() - i,
{
    if i < ids.len() && ids[i] != id {
        lemma_index_found(ids, id, i + 1);
    }
}

/// Saves a provider: replaces the one with the same id, or appends it.
pub fn upsert_provider(doc: LlmConfigDoc, p: ProviderEntry) -> (d: LlmConfigDoc)
    ensures
        d.providers@ == upsert(doc.providers@, entry_ids(doc.providers@), p.id@, p),
        d.models == doc.models,
        d.active_model_id == doc.active_model_id,
        d.global == doc.global,
{
    let LlmConfigDoc { providers, models, active_model_id, global } = doc;
    let mut providers = providers;
    match provider_position(&providers, p.id.as_str()) {
        Some(k) => providers.set(k, p),
        None => providers.push(p),
    }
    LlmConfigDoc { providers, models, active_model_id, global }
}

/// The active model after saving the model `new_id`: kept while it names a
/// model, otherwise the saved model.
pub open spec fn active_after_save(ms: Seq<ModelEntry>, active: Option<Seq<char>>, new_id: Seq<char>) -> Option<
    Seq<char>,
> {
    match active {
        Some(a) => if a.len() > 0 && has_model(ms, a) {
            Some(a)
        } else {
            Some(new_id)
        },
        None => Some(new_id),
    }
}

/// Saves a model: replaces the one with the same id, or appends it; the saved
/// model becomes active unless the active one still names a model.
pub fn upsert_model(doc: LlmConfigDoc, m: ModelEntry) -> (d: LlmConfigDoc)
    ensures
        d.models@ == upsert(doc.models@, model_id_seq(doc.models@), m.id@, m),
        opt_view(d.active_model_id) == active_after_save(d.models@, opt_view(doc.active_model_id), m.id@),
        d.providers == doc.providers,
        d.global == doc.global,
{
    let LlmConfigDoc { providers, models, active_model_id, global } = doc;
    let mut models = models;
    let new_id = m.id.clone();
    match model_position(&models, m.id.as_str()) {
        Some(k) => models.set(k, m),
        None => models.push(m),
    }
    let keep = match &active_model_id {
        Some(a) => {
            let mut found = false;
            if chars_of(a.as_str()).len() > 0 {
                let mut k: usize = 0;
                while k < models.len()
                    invariant
                        k <= models@.len(),
                        found == (exists|t: int| 0 <= t < k && (#[trigger] models@[t]).id@ == a@),
                    decreases models@.len() - k,
                {
                    if str_eq(models[k].id.as_str(), a.as_str()) {
                        found = true;
                    }
                    k += 1;
                }
            }
            found
        },
        None => false,
    };
    let active_model_id = if keep {
        active_model_id
    } else {
        Some(new_id)
    };
    LlmConfigDoc { providers, models, active_model_id, global }
}

/// Replaces the provider with the id (the id is kept); `NotFound` when none has it.
pub fn replace_provider(doc: LlmConfigDoc, id: &str, p: ProviderEntry) -> (r: Result<LlmConfigDoc, AppError>)
    ensures
        provider_index_spec(entry_ids(doc.providers@), id@, 0) is None ==> r == Err::<LlmConfigDoc, AppError>(
            AppError::NotFound,
        ),
        provider_index_spec(entry_ids(doc.providers@), id@, 0) matches Some(k) ==> (r matches Ok(d)
            && d.providers@.len() == doc.providers@.len() && d.providers@[k].id@ == id@ && d.providers@[k].name
            == p.name && d.providers@[k].base_url == p.base_url && d.providers@[k].api_key == p.api_key
            && (forall|t: int| 0 <= t < d.providers@.len() && t != k ==> #[trigger] d.providers@[t] == doc.providers@[t])
            && d.models == doc.models && d.active_model_id == doc.active_model_id && d.global == doc.global),
{
    let LlmConfigDoc { providers, models, active_model_id, global } = doc;
    let mut providers = providers;
    let k = match provider_position(&providers, id) {
        Some(k) => k,
        None => return Err(AppError::NotFound),
    };
    let ProviderEntry { id: _, name, base_url, api_key } = p;
    providers.set(k, ProviderEntry { id: String::from_str(id), name, base_url, api_key });
    Ok(LlmConfigDoc { providers, models, active_model_id, global })
}

/// Replaces the model with the id (the id is kept); `NotFound` when none has it.
pub fn replace_model(doc: LlmConfigDoc, id: &str, m: ModelEntry) -> (r: Result<LlmConfigDoc, AppError>)
    ensures
        provider_index_spec(model_id_seq(doc.models@), id@, 0) is None ==> r == Err::<LlmConfigDoc, AppError>(
            AppError::NotFound,
        ),
        provider_index_spec(model_id_seq(doc.models@), id@, 0) matches Some(k) ==> (r matches Ok(d)
            && d.models@.len() == doc.models@.len() && d.models@[k].id@ == id@ && d.models@[k].provider_id
            == m.provider_id && d.models@[k].name == m.name && d.models@[k].context_length == m.context_length
            && d.models@[k].caps == m.caps && d.models@[k].advanced == m.advanced && (forall|t: int|
            0 <= t < d.models@.len() && t != k ==> #[trigger] d.models@[t] == doc.models@[t]) && d.providers
            == doc.providers && d.active_model_id == doc.active_model_id && d.global == doc.global),
{
    let LlmConfigDoc { providers, models, active_model_id, global } = doc;
    let mut models = models;
    let k = match model_position(&models, id) {
        Some(k) => k,
        None => return Err(AppError::NotFound),
    };
    let ModelEntry { id: _, provider_id, name, context_length, caps, advanced } = m;
    models.set(k, ModelEntry { id: String::from_str(id), provider_id, name, context_length, caps, advanced });
    Ok(LlmConfigDoc { providers, models, active_model_id, global })
}

/// Filtering models by a key keeps exactly the models whose key differs, in order.
pub proof fn lemma_models_without(ms: Seq<ModelEntry>, key: Seq<char>, by_provider: bool)
    ensures
        forall|j: int|
            0 <= j < models_without(ms, key, by_provider).len() ==> model_key(
                #[trigger] models_without(ms, key, by_provider)[j],
                by_provider,
            ) != key && ms.contains(models_without(ms, key, by_provider)[j]),
        forall|i: int|
            0 <= i < ms.len() && model_key(#[trigger] ms[i], by_provider) != key ==> models_without(
                ms,
                key,
                by_provider,
            ).contains(ms[i]),
    decreases ms.len(),
{
    if ms.len() > 0 {
        let rest = ms.skip(1);
        lemma_models_without(rest, key, by_provider);
        let head: Seq<ModelEntry> = if model_key(ms[0], by_provider) == key {
            Seq::empty()
        } else {
            seq![ms[0]]
        };
        let r = models_without(ms, key, by_provider);
        let rr = models_without(rest, key, by_provider);
        assert(r == head + rr);
        assert forall|j: int| 0 <= j < r.len() implies model_key(#[trigger] r[j], by_provider) != key && ms.contains(
            r[j],
        ) by {
            if j < head.len() {
                assert(r[j] == ms[0]);
            } else {
                assert(r[j] == rr[j - head.len()]);
                let t = choose|t: int| 0 <= t < rest.len() && rest[t] == rr[j - head.len()];
                assert(ms[t + 1] == rest[t]);
            }
        }
        assert forall|i: int| 0 <= i < ms.len() && model_key(#[trigger] ms[i], by_provider) != key implies r.contains(
            ms[i],
        ) by {
            if i == 0 {
                assert(r[0] == ms[0]);
            } else {
                assert(ms[i] == rest[i - 1]);
                let t = choose|t: int| 0 <= t < rr.len() && rr[t] == rest[i - 1];
                assert(r[t + head.len()] == rr[t]);
            }
        }
    }
}

/// The healed active model names an existing model, is never missing while
/// there are models, and an active model that still exists is kept.
pub proof fn lemma_healed_active(ms: Seq<ModelEntry>, active: Option<Seq<char>>)
    ensures
        healed_active(ms, active) matches Some(x) ==> has_model(ms, x),
        ms.len() > 0 ==> healed_active(ms, active) is Some,
        active matches Some(a) && has_model(ms, a) ==> healed_active(ms, active) == active,
{
    if ms.len() > 0 {
        assert(ms[0].id@ == ms[0].id@);
    }
}

/// Deleting a provider leaves a consistent document: no model references the
/// deleted provider, the other models all remain, and the active model names
/// a remaining model (there is one whenever models remain).
pub proof fn lemma_delete_provider_consistent(ms: Seq<ModelEntry>, provider_id: Seq<char>, active: Option<Seq<char>>)
    ensures
        forall|j: int|
            0 <= j < models_without(ms, provider_id, true).len() ==> (#[trigger] models_without(
                ms,
                provider_id,
                true,
            )[j]).provider_id@ != provider_id,
        forall|i: int|
            0 <= i < ms.len() && (#[trigger] ms[i]).provider_id@ != provider_id ==> models_without(
                ms,
                provider_id,
                true,
            ).contains(ms[i]),
        healed_active(models_without(ms, provider_id, true), active) matches Some(x) ==> has_model(
            models_without(ms, provider_id, true),
            x,
        ),
        models_without(ms, provider_id, true).len() > 0 ==> healed_active(
            models_without(ms, provider_id, true),
            active,
        ) is Some,
{
    lemma_models_without(ms, provider_id, true);
    lemma_healed_active(models_without(ms, provider_id, true), active);
    let r = models_without(ms, provider_id, true);
    assert forall|j: int| 0 <= j < r.len() implies (#[trigger] r[j]).provider_id@ != provider_id by {
        assert(model_key(r[j], true) != provider_id);
    }
    assert forall|i: int| 0 <= i < ms.len() && (#[trigger] ms[i]).provider_id@ != provider_id implies r.contains(
        ms[i],
    ) by {
        assert(model_key(ms[i], true) != provider_id);
    }
}

/// Deleting a model removes every model with its id.
pub proof fn lemma_delete_model_removes(ms: Seq<ModelEntry>, id: Seq<char>)
    ensures
        !has_model(models_without(ms, id, false), id),
{
    lemma_models_without(ms, id, false);
    let r = models_without(ms, id, false);
    if has_model(r, id) {
        let j = choose|j: int| 0 <= j < r.len() && (#[trigger] r[j]).id@ == id;
        assert(model_key(r[j], false) != id);
    }
}

/// After saving a model it is present, and the active model names a present model.
pub proof fn lemma_upsert_model(ms: Seq<ModelEntry>, active: Option<Seq<char>>, m: ModelEntry)
    ensures
        has_model(upsert(ms, model_id_seq(ms), m.id@, m), m.id@),
        active_after_save(upsert(ms, model_id_seq(ms), m.id@, m), active, m.id@) matches Some(x) && has_model(
            upsert(ms, model_id_seq(ms), m.id@, m),
            x,
        ),
{
    let ms2 = upsert(ms, model_id_seq(ms), m.id@, m);
    lemma_index_found(model_id_seq(ms), m.id@, 0);
    match provider_index_spec(model_id_seq(ms), m.id@, 0) {
        Some(k) => {
            assert(ms2[k] == m);
        },
        None => {
            assert(ms2[ms.len() as int] == m);
        },
    }
}

/// Message of an `extra_body` whose inner `extra_body` is not an object.
pub const EXTRA_BODY_INNER: &'static str = "extra_body 内层必须是对象，如 {\"extra_body\": {\"enable_thinking\": true}}";

/// The extra request body of model `i`: absent (null) means an empty object,
/// any other non-object is refused; an SDK-style `{"extra_body": {...}}`
/// stands for its inner object (a non-object inner value other than null is
/// refused).
pub open spec fn extra_body_spec(v: JsonView, i: nat) -> Result<JsonView, AppErrorView> {
    let base = match v {
        JsonView::Null => Some(JsonView::Object(Seq::empty())),
        JsonView::Object(_) => Some(v),
        _ => None,
    };
    match base {
        None => Err(AppErrorView::BadRequest(model_message(i, "extra_body 必须是对象"@))),
        Some(b) => match member(b, "extra_body"@) {
            Some(JsonView::Object(m)) => Ok(JsonView::Object(m)),
            Some(JsonView::Null) => Ok(b),
            None => Ok(b),
            Some(_) => Err(AppErrorView::BadRequest(model_message(i, EXTRA_BODY_INNER@))),
        },
    }
}

/// Normalises the extra request body of model `i`.
pub fn normalize_extra_body(v: Json, i: usize) -> (r: Result<Json, AppError>)
    ensures
        extra_body_spec(v@, i as nat) == match r {
            Ok(j) => Ok(j@),
            Err(e) => Err(e@),
        },
{
    let base = match v {
        Json::Null => {
            let e: Vec<(String, Json)> = Vec::new();
            proof {
                crate::json::lemma_object_view(e);
            }
            let b = Json::Object(e);
            assert(b@->Object_0 =~= Seq::<(Seq<char>, JsonView)>::empty());
            b
        },
        Json::Object(m) => Json::Object(m),
        _ => {
            return Err(AppError::BadRequest(model_message_of(i, "extra_body 必须是对象")));
        },
    };
    let inner: u8 = match base.get("extra_body") {
        Some(Json::Object(_)) => 1,
        Some(Json::Null) => 0,
        None => 0,
        Some(_) => 2,
    };
    if inner == 1 {
        match base.into_member("extra_body") {
            Some(x) => Ok(x),
            None => Ok(Json::Null),
        }
    } else if inner == 0 {
        Ok(base)
    } else {
        Err(AppError::BadRequest(model_message_of(i, EXTRA_BODY_INNER)))
    }
}

/// A connection test: a saved model (by id) or inline fields, each inline
/// field overriding the saved one.  The sampling numbers and the extra body
/// are handled by the caller.
#[derive(Debug, Clone, Default, PartialEq)]
pub struct TestRequest {
    pub model_id: Option<String>,
    pub base_url: Option<String>,
    pub api_key: Option<String>,
    pub model: Option<String>,
    pub web_search: Option<bool>,
    pub structured_output: Option<bool>,
    pub reasoning_effort: Option<String>,
    pub store: Option<bool>,
}

/// What a connection test talks to.
#[derive(Debug, Clone, PartialEq)]
pub struct TestTarget {
    pub provider: String,
    /// Without trailing `/`.
    pub base_url: String,
    /// The stored (possibly encrypted) key, or a key typed in.
    pub api_key: String,
    pub model: String,
    pub web_search: bool,
    pub structured_output: bool,
    pub reasoning_effort: Option<String>,
    pub store: bool,
    /// Index of the saved model used, if any.
    pub saved_model: Option<usize>,
}

/// A text unless blank (kept as given).
pub open spec fn given(t: Option<String>) -> Option<Seq<char>> {
    match t {
        Some(x) => if trim(x@).len() > 0 {
            Some(x@)
        } else {
            None
        },
        None => None,
    }
}

/// A key typed in: trimmed, unless blank or masked (starting with `*`).
pub open spec fn typed_key(k: Option<String>) -> Option<Seq<char>> {
    match k {
        Some(x) => if trim(x@).len() > 0 && trim(x@)[0] != '*' {
            Some(trim(x@))
        } else {
            None
        },
        None => None,
    }
}

/// The saved model and its provider a test names: `(model, provider)` indices.
pub open spec fn saved_target(doc: LlmConfigDoc, model_id: Option<String>) -> Option<(int, int)> {
    match model_id {
        Some(mid) => if mid@.len() > 0 {
            match provider_index_spec(model_id_seq(doc.models@), mid@, 0) {
                Some(mi) => match provider_index_spec(entry_ids(doc.providers@), doc.models@[mi].provider_id@, 0) {
                    Some(pi) => Some((mi, pi)),
                    None => None,
                },
                None => None,
            }
        } else {
            None
        },
        None => None,
    }
}

/// The target of a connection test as `(provider, base URL (before removing
/// trailing slashes), key, model, web search, structured output, reasoning,
/// store)`.
pub open spec fn test_target_spec(doc: LlmConfigDoc, req: TestRequest) -> Result<
    (Seq<char>, Seq<char>, Seq<char>, Seq<char>, bool, bool, Option<Seq<char>>, bool),
    AppErrorView,
> {
    match saved_target(doc, req.model_id) {
        Some((mi, pi)) => {
            let m = doc.models@[mi];
            let p = doc.providers@[pi];
            Ok(
                (
                    p.name@,
                    match given(req.base_url) {
                        Some(u) => u,
                        None => p.base_url@,
                    },
                    match typed_key(req.api_key) {
                        Some(k) => k,
                        None => p.api_key@,
                    },
                    match given(req.model) {
                        Some(n) => n,
                        None => m.name@,
                    },
                    match req.web_search {
                        Some(b) => b,
                        None => m.caps.web_search,
                    },
                    match req.structured_output {
                        Some(b) => b,
                        None => m.caps.structured_output,
                    },
                    Some(
                        match req.reasoning_effort {
                            Some(e) => e@,
                            None => match m.advanced.reasoning_effort {
                                Some(x) => if x@.len() > 0 {
                                    x@
                                } else {
                                    "xhigh"@
                                },
                                None => "xhigh"@,
                            },
                        },
                    ),
                    match req.store {
                        Some(b) => b,
                        None => match m.advanced.store {
                            Some(b) => b,
                            None => false,
                        },
                    },
                ),
            )
        },
        None => {
            let url = match given(req.base_url) {
                Some(u) => Some(u),
                None => if doc.providers@.len() > 0 {
                    Some(doc.providers@[0].base_url@)
                } else {
                    None
                },
            };
            let model = match given(req.model) {
                Some(n) => Some(n),
                None => if doc.models@.len() > 0 {
                    Some(doc.models@[0].name@)
                } else {
                    None
                },
            };
            match url {
                None => Err(AppErrorView::BadRequest("请填写 base_url（或先保存配置）"@)),
                Some(u) => match model {
                    None => Err(AppErrorView::BadRequest("请填写 model"@)),
                    Some(n) => Ok(
                        (
                            provider_of_spec(u),
                            u,
                            match typed_key(req.api_key) {
                                Some(k) => k,
                                None => if doc.providers@.len() > 0 {
                                    doc.providers@[0].api_key@
                                } else {
                                    Seq::empty()
                                },
                            },
                            n,
                            match req.web_search {
                                Some(b) => b,
                                None => false,
                            },
                            match req.structured_output {
                                Some(b) => b,
                                None => true,
                            },
                            Some(
                                match req.reasoning_effort {
                                    Some(e) => e@,
                                    None => "xhigh"@,
                                },
                            ),
                            match req.store {
                                Some(b) => b,
                                None => false,
                            },
                        ),
                    ),
                },
            }
        },
    }
}

fn given_of(t: &Option<String>) -> (r: Option<String>)
    ensures
        opt_view(r) == given(*t),
{
    match t {
        Some(x) => if trim_chars(&chars_of(x.as_str())).len() > 0 {
            Some(x.clone())
        } else {
            None
        },
        None => None,
    }
}

fn typed_key_of(k: &Option<String>) -> (r: Option<String>)
    ensures
        opt_view(r) == typed_key(*k),
{
    match k {
        Some(x) => {
            let t = trim_chars(&chars_of(x.as_str()));
            if t.len() > 0 && t[0] != '*' {
                Some(string_of(&t))
            } else {
                None
            }
        },
        None => None,
    }
}

fn saved_target_of(doc: &LlmConfigDoc, model_id: &Option<String>) -> (r: Option<(usize, usize)>)
    ensures
        match r {
            Some((mi, pi)) => saved_target(*doc, *model_id) == Some((mi as int, pi as int)) && mi < doc.models@.len()
                && pi < doc.providers@.len(),
            None => saved_target(*doc, *model_id) is None,
        },
{
    match model_id {
        Some(mid) => {
            if chars_of(mid.as_str()).len() == 0 {
                return None;
            }
            match model_position(&doc.models, mid.as_str()) {
                Some(mi) => match provider_position(&doc.providers, doc.models[mi].provider_id.as_str()) {
                    Some(pi) => Some((mi, pi)),
                    None => None,
                },
                None => None,
            }
        },
        None => None,
    }
}

/// Resolves what a connection test talks to.
pub fn test_target(doc: &LlmConfigDoc, req: &TestRequest) -> (r: Result<TestTarget, AppError>)
    ensures
        match test_target_spec(*doc, *req) {
            Ok((provider, url, key, model, web, structured, effort, store)) => r matches Ok(t) && t.provider@ == provider
                && t.base_url@ == strip_slashes(url) && t.api_key@ == key && t.model@ == model && t.web_search == web
                && t.structured_output == structured && opt_view(t.reasoning_effort) == effort && t.store == store
                && as_index(t.saved_model) == match saved_target(*doc, req.model_id) {
                Some((mi, _)) => Some(mi),
                None => None,
            },
            Err(e0) => r matches Err(e) && e@ == e0,
        },
{
    let key = typed_key_of(&req.api_key);
    match saved_target_of(doc, &req.model_id) {
        Some((mi, pi)) => {
            let m = &doc.models[mi];
            let p = &doc.providers[pi];
            let url = match given_of(&req.base_url) {
                Some(u) => u,
                None => p.base_url.clone(),
            };
            let effort = match &req.reasoning_effort {
                Some(e) => Some(e.clone()),
                None => m.advanced.effort_or_default(),
            };
            Ok(
                TestTarget {
                    provider: p.name.clone(),
                    base_url: string_of(&strip_slashes_chars(&chars_of(url.as_str()))),
                    api_key: match key {
                        Some(k) => k,
                        None => p.api_key.clone(),
                    },
                    model: match given_of(&req.model) {
                        Some(n) => n,
                        None => m.name.clone(),
                    },
                    web_search: match req.web_search {
                        Some(b) => b,
                        None => m.caps.web_search,
                    },
                    structured_output: match req.structured_output {
                        Some(b) => b,
                        None => m.caps.structured_output,
                    },
                    reasoning_effort: effort,
                    store: match req.store {
                        Some(b) => b,
                        None => m.advanced.store_or_default(),
                    },
                    saved_model: Some(mi),
                },
            )
        },
        None => {
            let url = match given_of(&req.base_url) {
                Some(u) => u,
                None => {
                    if doc.providers.len() > 0 {
                        doc.providers[0].base_url.clone()
                    } else {
                        return Err(AppError::BadRequest(owned("请填写 base_url（或先保存配置）")));
                    }
                },
            };
            let model = match given_of(&req.model) {
                Some(n) => n,
                None => {
                    if doc.models.len() > 0 {
                        doc.models[0].name.clone()
                    } else {
                        return Err(AppError::BadRequest(owned("请填写 model")));
                    }
                },
            };
            let api_key = match key {
                Some(k) => k,
                None => if doc.providers.len() > 0 {
                    doc.providers[0].api_key.clone()
                } else {
                    String::new()
                },
            };
            Ok(
                TestTarget {
                    provider: provider_of(url.as_str()),
                    base_url: string_of(&strip_slashes_chars(&chars_of(url.as_str()))),
                    api_key,
                    model,
                    web_search: match req.web_search {
                        Some(b) => b,
                        None => false,
                    },
                    structured_output: match req.structured_output {
                        Some(b) => b,
                        None => true,
                    },
                    reasoning_effort: Some(
                        match &req.reasoning_effort {
                            Some(e) => e.clone(),
                            None => owned(DEFAULT_REASONING_EFFORT),
                        },
                    ),
                    store: match req.store {
                        Some(b) => b,
                        None => false,
                    },
                    saved_model: None,
                },
            )
        },
    }
}

/// The views of JSON values.
pub open spec fn json_views(s: Seq<Json>) -> Seq<JsonView> {
    s.map_values(|j: Json| j@)
}

/// `provider[i] id 重复`.
pub open spec fn duplicate_provider(i: nat) -> Seq<char> {
    "provider["@ + decimal(i) + "] id 重复"@
}

/// The ids of provider drafts.
pub open spec fn draft_ids(ds: Seq<ProviderDraftView>) -> Seq<Seq<char>> {
    ds.map_values(|d: ProviderDraftView| d.id)
}

/// The outcome of validating the first `k` submitted providers in order, each
/// with its fresh bytes: the first entry that is refused, or whose id repeats
/// an earlier one, refuses the whole list.
pub open spec fn providers_spec(pvs: Seq<JsonView>, doc: LlmConfigDoc, fresh: Seq<Seq<u8>>, k: int) -> Result<
    Seq<ProviderDraftView>,
    AppErrorView,
>
    decreases k,
{
    if k <= 0 {
        Ok(Seq::empty())
    } else {
        match providers_spec(pvs, doc, fresh, k - 1) {
            Err(e) => Err(e),
            Ok(prev) => match provider_spec(pvs[k - 1], doc, fresh[k - 1]) {
                Err(m) => Err(AppErrorView::BadRequest(m)),
                Ok(p) => if draft_ids(prev).contains(p.id) {
                    Err(AppErrorView::BadRequest(duplicate_provider((k - 1) as nat)))
                } else {
                    Ok(prev.push(p))
                },
            },
        }
    }
}

/// A refusal of the first entries refuses every longer list the same way.
pub proof fn lemma_providers_refusal_stays(pvs: Seq<JsonView>, doc: LlmConfigDoc, fresh: Seq<Seq<u8>>, k: int, n: int)
    requires
        0 <= k <= n,
        providers_spec(pvs, doc, fresh, k) is Err,
    ensures
        providers_spec(pvs, doc, fresh, n) == providers_spec(pvs, doc, fresh, k),
    decreases n - k,
{
    if k < n {
        lemma_providers_refusal_stays(pvs, doc, fresh, k, n - 1);
    }
}

fn draft_id_taken(ds: &Vec<ProviderDraft>, id: &String) -> (r: bool)
    ensures
        r == draft_ids(ds@.map_values(|d: ProviderDraft| d@)).contains(id@),
{
    let ghost ids = draft_ids(ds@.map_values(|d: ProviderDraft| d@));
    let mut found = false;
    let mut k: usize = 0;
    while k < ds.len()
        invariant
            k <= ds@.len(),
            ids == draft_ids(ds@.map_values(|d: ProviderDraft| d@)),
            found == (exists|t: int| 0 <= t < k && ids[t] == id@),
        decreases ds@.len() - k,
    {
        assert(ids[k as int] == ds@[k as int].id@);
        if str_eq(ds[k].id.as_str(), id.as_str()) {
            found = true;
        }
        k += 1;
    }
    found
}

/// Validates the submitted providers in order with the given fresh bytes for
/// blank ids (one entry per provider); ids must not repeat.
pub fn collect_providers_with(pvs: &[Json], old_doc: &LlmConfigDoc, fresh: &Vec<[u8; 6]>) -> (r: Result<
    Vec<ProviderDraft>,
    AppError,
>)
    requires
        fresh@.len() == pvs@.len(),
    ensures
        providers_spec(
            json_views(pvs@),
            *old_doc,
            fresh@.map_values(|b: [u8; 6]| b@),
            pvs@.len() as int,
        ) == match r {
            Ok(ds) => Ok(ds@.map_values(|d: ProviderDraft| d@)),
            Err(e) => Err(e@),
        },
{
    let ghost views = json_views(pvs@);
    let ghost fv = fresh@.map_values(|b: [u8; 6]| b@);
    let mut out: Vec<ProviderDraft> = Vec::new();
    assert(out@.map_values(|d: ProviderDraft| d@) =~= Seq::<ProviderDraftView>::empty());
    let mut i: usize = 0;
    while i < pvs.len()
        invariant
            i <= pvs@.len(),
            fresh@.len() == pvs@.len(),
            views == json_views(pvs@),
            fv == fresh@.map_values(|b: [u8; 6]| b@),
            providers_spec(views, *old_doc, fv, i as int) == Ok::<Seq<ProviderDraftView>, AppErrorView>(
                out@.map_values(|d: ProviderDraft| d@),
            ),
        decreases pvs@.len() - i,
    {
        assert(views[i as int] == pvs@[i as int]@);
        assert(fv[i as int] == fresh@[i as int]@);
        let ghost before = out@.map_values(|d: ProviderDraft| d@);
        match validate_provider_entry_with(&pvs[i], old_doc, &fresh[i]) {
            Err(e) => {
                proof {
                    lemma_providers_refusal_stays(views, *old_doc, fv, i + 1, pvs@.len() as int);
                }
                return Err(e);
            },
            Ok(d) => {
                if draft_id_taken(&out, &d.id) {
                    let mut m = chars_of("provider[");
                    push_decimal(&mut m, i as u64);
                    extend_chars(&mut m, "] id 重复");
                    proof {
                        assert(m@ =~= duplicate_provider(i as nat));
                        lemma_providers_refusal_stays(views, *old_doc, fv, i + 1, pvs@.len() as int);
                    }
                    return Err(AppError::BadRequest(string_of(&m)));
                }
                let ghost dv = d@;
                out.push(d);
                assert(out@.map_values(|d: ProviderDraft| d@) =~= before.push(dv));
            },
        }
        i += 1;
    }
    Ok(out)
}

/// Validates the submitted providers in order, drawing fresh random bytes for
/// blank ids; ids must not repeat.
pub fn collect_providers(pvs: &[Json], old_doc: &LlmConfigDoc) -> (r: Result<Vec<ProviderDraft>, AppError>)
    ensures
        exists|fresh: Seq<Seq<u8>>|
            fresh.len() == pvs@.len() && (forall|t: int| 0 <= t < fresh.len() ==> (#[trigger] fresh[t]).len() == 6)
                && #[trigger] providers_spec(json_views(pvs@), *old_doc, fresh, pvs@.len() as int)
                == match r {
                Ok(ds) => Ok(ds@.map_values(|d: ProviderDraft| d@)),
                Err(e) => Err(e@),
            },
{
    let mut fresh: Vec<[u8; 6]> = Vec::new();
    let mut i: usize = 0;
    while i < pvs.len()
        invariant
            i <= pvs@.len(),
            fresh@.len() == i,
        decreases pvs@.len() - i,
    {
        fresh.push(random_bytes_6());
        i += 1;
    }
    let r = collect_providers_with(pvs, old_doc, &fresh);
    let ghost fv = fresh@.map_values(|b: [u8; 6]| b@);
    assert(forall|t: int| 0 <= t < fv.len() ==> (#[trigger] fv[t]).len() == 6);
    r
}

/// The outcome of checking the first `k` validated models in order: the first
/// refused model, or the first whose id repeats an earlier one, refuses the list.
pub open spec fn models_spec(es: Seq<Result<ModelEntry, AppError>>, k: int) -> Result<Seq<ModelEntry>, AppErrorView>
    decreases k,
{
    if k <= 0 {
        Ok(Seq::empty())
    } else {
        match models_spec(es, k - 1) {
            Err(e) => Err(e),
            Ok(prev) => match es[k - 1] {
                Err(e) => Err(e@),
                Ok(m) => if model_id_seq(prev).contains(m.id@) {
                    Err(AppErrorView::BadRequest(model_message((k - 1) as nat, "id 重复"@)))
                } else {
                    Ok(prev.push(m))
                },
            },
        }
    }
}

/// A refusal of the first models refuses every longer list the same way.
pub proof fn lemma_models_refusal_stays(es: Seq<Result<ModelEntry, AppError>>, k: int, n: int)
    requires
        0 <= k <= n,
        models_spec(es, k) is Err,
    ensures
        models_spec(es, n) == models_spec(es, k),
    decreases n - k,
{
    if k < n {
        lemma_models_refusal_stays(es, k, n - 1);
    }
}

fn model_id_taken(ms: &Vec<ModelEntry>, id: &String) -> (r: bool)
    ensures
        r == model_id_seq(ms@).contains(id@),
{
    let ghost ids = model_id_seq(ms@);
    let mut found = false;
    let mut k: usize = 0;
    while k < ms.len()
        invariant
            k <= ms@.len(),
            ids == model_id_seq(ms@),
            found == (exists|t: int| 0 <= t < k && ids[t] == id@),
        decreases ms@.len() - k,
    {
        assert(ids[k as int] == ms@[k as int].id@);
        if str_eq(ms[k].id.as_str(), id.as_str()) {
            found = true;
        }
        k += 1;
    }
    found
}

/// Collects the validated models in order: the first refusal is returned, and
/// a model whose id repeats an earlier one is refused.
pub fn collect_models(entries: Vec<Result<ModelEntry, AppError>>) -> (r: Result<Vec<ModelEntry>, AppError>)
    ensures
        models_spec(entries@, entries@.len() as int) == match r {
            Ok(ms) => Ok(ms@),
            Err(e) => Err(e@),
        },
{
    let ghost all = entries@;
    let n = entries.len();
    let mut rest = entries;
    let mut out: Vec<ModelEntry> = Vec::new();
    let mut i: usize = 0;
    while rest.len() > 0
        invariant
            i <= all.len(),
            all.len() == n,
            all == entries@,
            rest@ == all.skip(i as int),
            models_spec(all, i as int) == Ok::<Seq<ModelEntry>, AppErrorView>(out@),
        decreases rest@.len(),
    {
        let e = rest.remove(0);
        assert(e == all[i as int]);
        match e {
            Err(err) => {
                proof {
                    assert(models_spec(all, i + 1) == Err::<Seq<ModelEntry>, AppErrorView>(err@));
                    lemma_models_refusal_stays(all, i + 1, all.len() as int);
                    assert(models_spec(all, all.len() as int) == Err::<Seq<ModelEntry>, AppErrorView>(err@));
                }
                return Err(err);
            },
            Ok(m) => {
                if model_id_taken(&out, &m.id) {
                    let msg = model_message_of(i, "id 重复");
                    proof {
                        assert(models_spec(all, i + 1) == Err::<Seq<ModelEntry>, AppErrorView>(
                            AppErrorView::BadRequest(msg@),
                        ));
                        lemma_models_refusal_stays(all, i + 1, all.len() as int);
                    }
                    return Err(AppError::BadRequest(msg));
                }
                out.push(m);
            },
        }
        assert(rest@ =~= all.skip(i + 1));
        i += 1;
    }
    assert(i == all.len());
    Ok(out)
}

/// The raw `id` of the first submitted model, when it is a string (not trimmed).
pub open spec fn first_raw_model_id(raw: Seq<JsonView>) -> Option<Seq<char>> {
    if raw.len() == 0 {
        None
    } else {
        str_of(member(raw[0], "id"@))
    }
}

/// A chosen active model must be one of the models.
pub open spec fn active_known(models: Seq<ModelEntry>, active: Option<Seq<char>>) -> bool {
    match active {
        Some(a) => has_model(models, a),
        None => true,
    }
}

/// Builds the configuration document of a full save: the chosen active model
/// must exist and the global limits must hold; without a choice the first
/// submitted model's raw id becomes active.
pub fn assemble_llm_config(
    providers: Vec<ProviderEntry>,
    models: Vec<ModelEntry>,
    active_model_id: Option<String>,
    raw_models: &[Json],
    global: LlmGlobal,
) -> (r: Result<LlmConfigDoc, AppError>)
    ensures
        r is Ok <==> active_known(models@, opt_view(active_model_id)) && global_error(global) is None,
        r matches Ok(d) ==> d.providers@ == providers@ && d.models@ == models@ && d.global == global && opt_view(
            d.active_model_id,
        ) == match active_model_id {
            Some(a) => Some(a@),
            None => first_raw_model_id(json_views(raw_models@)),
        },
        r matches Err(e) ==> if !active_known(models@, opt_view(active_model_id)) {
            e@ == AppErrorView::BadRequest("active_model_id 不存在"@)
        } else {
            global_error(global) matches Some(m) && e@ == AppErrorView::BadRequest(m)
        },
{
    if let Some(a) = &active_model_id {
        let mut found = false;
        let mut k: usize = 0;
        while k < models.len()
            invariant
                k <= models@.len(),
                found == (exists|t: int| 0 <= t < k && (#[trigger] models@[t]).id@ == a@),
            decreases models@.len() - k,
        {
            if str_eq(models[k].id.as_str(), a.as_str()) {
                found = true;
            }
            k += 1;
        }
        if !found {
            return Err(AppError::BadRequest(owned("active_model_id 不存在")));
        }
    }
    check_global(&global)?;
    let active = match active_model_id {
        Some(a) => Some(a),
        None => if raw_models.len() > 0 {
            match raw_models[0].get("id") {
                Some(v) => match v.as_str() {
                    Some(s) => Some(s.clone()),
                    None => None,
                },
                None => None,
            }
        } else {
            None
        },
    };
    Ok(LlmConfigDoc { providers, models, active_model_id: active, global })
}

} // verus!
