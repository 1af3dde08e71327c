use vstd::prelude::*;
use vstd::string::StringExecFns;

use crate::env::{
    env_list, env_non_empty, env_number, env_value, opt_view, parse_csv_env, parse_env_u16,
    parse_env_u64, parse_env_usize, EnvVars,
};
use crate::text::{is_valid_extra_model_id, normalize_api_url, normalized_api_url, valid_extra_model_id, views};

verus! {

/// How one model id is served: the upstream endpoint, its key, and how the model
/// is named there and shown here.
#[derive(Debug, PartialEq, Eq)]
pub struct ModelConfig {
    pub api_url: String,
    pub api_key: String,
    pub model_type: String,
    pub name: String,
    pub upstream_model: Option<String>,
    pub provider: Option<String>,
}

pub struct ModelConfigView {
    pub api_url: Seq<char>,
    pub api_key: Seq<char>,
    pub model_type: Seq<char>,
    pub name: Seq<char>,
    pub upstream_model: Option<Seq<char>>,
    pub provider: Option<Seq<char>>,
}

impl View for ModelConfig {
    type V = ModelConfigView;

    open spec fn view(&self) -> ModelConfigView {
        ModelConfigView {
            api_url: self.api_url@,
            api_key: self.api_key@,
            model_type: self.model_type@,
            name: self.name@,
            upstream_model: opt_view(self.upstream_model),
            provider: opt_view(self.provider),
        }
    }
}

fn copy_opt(o: &Option<String>) -> (r: Option<String>)
    ensures
        opt_view(r) == opt_view(*o),
{
    match o {
        Some(s) => Some(s.clone()),
        None => None,
    }
}

impl ModelConfig {
    /// A copy of this configuration.
    pub fn duplicate(&self) -> (r: ModelConfig)
        ensures
            r@ == self@,
    {
        ModelConfig {
            api_url: self.api_url.clone(),
            api_key: self.api_key.clone(),
            model_type: self.model_type.clone(),
            name: self.name.clone(),
            upstream_model: copy_opt(&self.upstream_model),
            provider: copy_opt(&self.provider),
        }
    }
}

/// The model ids and their configurations, in the order they were added; no id
/// occurs twice.
#[derive(Debug)]
pub struct ModelTable {
    entries: Vec<(String, ModelConfig)>,
}

pub open spec fn entry_views(v: Seq<(String, ModelConfig)>) -> Seq<(Seq<char>, ModelConfigView)> {
    v.map_values(|p: (String, ModelConfig)| (p.0@, p.1@))
}

impl View for ModelTable {
    type V = Seq<(Seq<char>, ModelConfigView)>;

    closed spec fn view(&self) -> Seq<(Seq<char>, ModelConfigView)> {
        entry_views(self.entries@)
    }
}

/// The configuration that the first entry with id `id` holds.
pub open spec fn table_get(s: Seq<(Seq<char>, ModelConfigView)>, id: Seq<char>) -> Option<ModelConfigView>
    decreases s.len(),
{
    if s.len() == 0 {
        None
    } else {
        match table_get(s.drop_last(), id) {
            Some(c) => Some(c),
            None => if s.last().0 == id {
                Some(s.last().1)
            } else {
                None
            },
        }
    }
}

/// No id occurs twice.
pub open spec fn ids_distinct(s: Seq<(Seq<char>, ModelConfigView)>) -> bool {
    forall|i: int, j: int| 0 <= i < j < s.len() ==> #[trigger] s[i].0 != #[trigger] s[j].0
}

/// The table as a map from id to configuration.
pub open spec fn table_map(s: Seq<(Seq<char>, ModelConfigView)>) -> Map<Seq<char>, ModelConfigView> {
    Map::new(|id: Seq<char>| table_get(s, id) is Some, |id: Seq<char>| table_get(s, id)->0)
}

/// The table after adding `(id, cfg)`: unchanged where `id` is already there.
pub open spec fn with_model(s: Seq<(Seq<char>, ModelConfigView)>, id: Seq<char>, cfg: ModelConfigView) -> Seq<(Seq<char>, ModelConfigView)> {
    if table_get(s, id) is Some {
        s
    } else {
        s.push((id, cfg))
    }
}

/// The table after adding each candidate in turn.
pub open spec fn with_models(s: Seq<(Seq<char>, ModelConfigView)>, cands: Seq<(Seq<char>, ModelConfigView)>) -> Seq<(Seq<char>, ModelConfigView)>
    decreases cands.len(),
{
    if cands.len() == 0 {
        s
    } else {
        let t = with_models(s, cands.drop_last());
        with_model(t, cands.last().0, cands.last().1)
    }
}

pub proof fn lemma_table_get_none(s: Seq<(Seq<char>, ModelConfigView)>, id: Seq<char>)
    ensures
        table_get(s, id) is None <==> forall|i: int| 0 <= i < s.len() ==> (#[trigger] s[i]).0 != id,
    decreases s.len(),
{
    if s.len() > 0 {
        let t = s.drop_last();
        lemma_table_get_none(t, id);
        if table_get(s, id) is None {
            assert forall|i: int| 0 <= i < s.len() implies (#[trigger] s[i]).0 != id by {
                if i < s.len() - 1 {
                    assert(s[i] == t[i]);
                }
            }
        } else {
            if table_get(t, id) is Some {
                let i = choose|i: int| 0 <= i < t.len() && (#[trigger] t[i]).0 == id;
                assert(s[i] == t[i]);
            } else {
                assert(s[s.len() - 1].0 == id);
            }
        }
    }
}

pub proof fn lemma_table_get_prefix(s: Seq<(Seq<char>, ModelConfigView)>, id: Seq<char>, k: int)
    requires
        0 <= k <= s.len(),
        table_get(s.take(k), id) is Some,
    ensures
        table_get(s, id) == table_get(s.take(k), id),
    decreases s.len() - k,
{
    if k < s.len() {
        let t = s.drop_last();
        assert(t.take(k) =~= s.take(k));
        lemma_table_get_prefix(t, id, k);
    } else {
        assert(s.take(k) =~= s);
    }
}

pub proof fn lemma_with_model(s: Seq<(Seq<char>, ModelConfigView)>, id: Seq<char>, cfg: ModelConfigView)
    ensures
        ids_distinct(s) ==> ids_distinct(with_model(s, id, cfg)),
        table_map(with_model(s, id, cfg)) == if table_map(s).contains_key(id) {
            table_map(s)
        } else {
            table_map(s).insert(id, cfg)
        },
{
    let r = with_model(s, id, cfg);
    if table_get(s, id) is None {
        lemma_table_get_none(s, id);
        assert(r.drop_last() =~= s);
        assert forall|k: Seq<char>| #[trigger] table_get(r, k) == if k == id {
            Some(cfg)
        } else {
            table_get(s, k)
        } by {}
        assert(table_map(r) =~= table_map(s).insert(id, cfg));
    }
}

pub proof fn lemma_with_models_distinct(s: Seq<(Seq<char>, ModelConfigView)>, cands: Seq<(Seq<char>, ModelConfigView)>)
    requires
        ids_distinct(s),
    ensures
        ids_distinct(with_models(s, cands)),
    decreases cands.len(),
{
    if cands.len() > 0 {
        lemma_with_models_distinct(s, cands.drop_last());
        lemma_with_model(with_models(s, cands.drop_last()), cands.last().0, cands.last().1);
    }
}

pub proof fn lemma_with_models_append(
    s: Seq<(Seq<char>, ModelConfigView)>,
    a: Seq<(Seq<char>, ModelConfigView)>,
    b: Seq<(Seq<char>, ModelConfigView)>,
)
    ensures
        with_models(with_models(s, a), b) == with_models(s, a + b),
    decreases b.len(),
{
    if b.len() == 0 {
        assert(a + b =~= a);
    } else {
        lemma_with_models_append(s, a, b.drop_last());
        assert((a + b).drop_last() =~= a + b.drop_last());
        assert((a + b).last() == b.last());
    }
}

impl ModelTable {
    #[verifier::type_invariant]
    spec fn ids_are_distinct(self) -> bool {
        ids_distinct(self@)
    }

    /// An empty table.
    pub fn new() -> (r: Self)
        ensures
            r@ == Seq::<(Seq<char>, ModelConfigView)>::empty(),
    {
        let r = ModelTable { entries: Vec::new() };
        assert(r@ =~= Seq::<(Seq<char>, ModelConfigView)>::empty());
        r
    }

    pub fn len(&self) -> (r: usize)
        ensures
            r == self@.len(),
            ids_distinct(self@),
    {
        proof {
            use_type_invariant(self);
        }
        self.entries.len()
    }

    /// The id of the entry at `i`.
    pub fn id_at(&self, i: usize) -> (r: &String)
        requires
            i < self@.len(),
        ensures
            r@ == self@[i as int].0,
    {
        &self.entries[i].0
    }

    pub fn is_empty(&self) -> (r: bool)
        ensures
            r == (self@.len() == 0),
    {
        self.entries.len() == 0
    }

    /// The configuration of the model `id`.
    pub fn get(&self, id: &str) -> (r: Option<&ModelConfig>)
        ensures
            match r {
                Some(c) => table_get(self@, id@) == Some(c@),
                None => table_get(self@, id@) is None,
            },
            ids_distinct(self@),
    {
        proof {
            use_type_invariant(self);
        }
        let wanted = id.to_owned();
        let n = self.entries.len();
        let mut i: usize = 0;
        assert(self@.take(0) =~= Seq::<(Seq<char>, ModelConfigView)>::empty());
        while i < n
            invariant
                i <= n,
                n == self.entries.len(),
                wanted@ == id@,
                ids_distinct(self@),
                table_get(self@.take(i as int), id@) is None,
            decreases n - i,
        {
            if self.entries[i].0 == wanted {
                proof {
                    let p = self@.take(i + 1);
                    assert(p.drop_last() =~= self@.take(i as int));
                    assert(p.last() == self@[i as int]);
                    lemma_table_get_prefix(self@, id@, i + 1);
                }
                return Some(&self.entries[i].1);
            }
            proof {
                let p = self@.take(i + 1);
                assert(p.drop_last() =~= self@.take(i as int));
            }
            i = i + 1;
        }
        assert(self@.take(n as int) =~= self@);
        None
    }

    /// Whether the model `id` is configured.
    pub fn contains_key(&self, id: &str) -> (r: bool)
        ensures
            r == (table_get(self@, id@) is Some),
    {
        self.get(id).is_some()
    }
}

/// Adds the model `model_id` unless it is already configured: on a conflict the
/// first configuration stays and the new one is dropped.
pub fn add_model_config(api_configs: &mut ModelTable, model_id: &str, config: ModelConfig)
    ensures
        final(api_configs)@ == with_model(old(api_configs)@, model_id@, config@),
        table_map(final(api_configs)@) == if table_map(old(api_configs)@).contains_key(model_id@) {
            table_map(old(api_configs)@)
        } else {
            table_map(old(api_configs)@).insert(model_id@, config@)
        },
        ids_distinct(final(api_configs)@),
{
    proof {
        use_type_invariant(&*api_configs);
        lemma_with_model(api_configs@, model_id@, config@);
    }
    if api_configs.contains_key(model_id) {
        return;
    }
    let ghost before = api_configs@;
    let mut entries: Vec<(String, ModelConfig)> = Vec::new();
    std::mem::swap(&mut entries, &mut api_configs.entries);
    assert(entry_views(entries@) == before);
    entries.push((model_id.to_owned(), config));
    assert(entry_views(entries@) =~= before.push((model_id@, config@)));
    api_configs.entries = entries;
}

/// Adds each candidate in turn, keeping the first configuration of each id.
fn add_all(api_configs: &mut ModelTable, cands: &Vec<(String, ModelConfig)>)
    ensures
        final(api_configs)@ == with_models(old(api_configs)@, entry_views(cands@)),
{
    let ghost start = api_configs@;
    let n = cands.len();
    let mut i: usize = 0;
    assert(entry_views(cands@).take(0) =~= Seq::<(Seq<char>, ModelConfigView)>::empty());
    while i < n
        invariant
            i <= n,
            n == cands.len(),
            api_configs@ == with_models(start, entry_views(cands@).take(i as int)),
        decreases n - i,
    {
        let id = &cands[i].0;
        let cfg = cands[i].1.duplicate();
        add_model_config(api_configs, id.as_str(), cfg);
        proof {
            let p = entry_views(cands@).take(i + 1);
            assert(p.drop_last() =~= entry_views(cands@).take(i as int));
            assert(p.last() == entry_views(cands@)[i as int]);
        }
        i = i + 1;
    }
    assert(entry_views(cands@).take(n as int) =~= entry_views(cands@));
}

pub open spec fn opt_or(o: Option<Seq<char>>, d: Seq<char>) -> Seq<char> {
    match o {
        Some(v) => v,
        None => d,
    }
}

/// An OpenAI-compatible model configuration.
pub open spec fn compat_config(
    api_url: Seq<char>,
    api_key: Seq<char>,
    name: Seq<char>,
    upstream_model: Seq<char>,
    provider: Seq<char>,
) -> ModelConfigView {
    ModelConfigView {
        api_url,
        api_key,
        model_type: "openai_compat"@,
        name,
        upstream_model: Some(upstream_model),
        provider: Some(provider),
    }
}

fn make_config(api_url: &String, api_key: &String, name: String, upstream_model: &String, provider: &String) -> (r: ModelConfig)
    ensures
        r@ == compat_config(api_url@, api_key@, name@, upstream_model@, provider@),
{
    ModelConfig {
        api_url: api_url.clone(),
        api_key: api_key.clone(),
        model_type: "openai_compat".to_owned(),
        name,
        upstream_model: Some(upstream_model.clone()),
        provider: Some(provider.clone()),
    }
}

/// One entry per model of a list, named `"{prefix} {model}"`.
pub open spec fn listed_models(
    models: Seq<Seq<char>>,
    api_url: Seq<char>,
    api_key: Seq<char>,
    prefix: Seq<char>,
    provider: Seq<char>,
) -> Seq<(Seq<char>, ModelConfigView)>
    decreases models.len(),
{
    if models.len() == 0 {
        Seq::empty()
    } else {
        let m = models.last();
        listed_models(models.drop_last(), api_url, api_key, prefix, provider).push(
            (m, compat_config(api_url, api_key, prefix + " "@ + m, m, provider)),
        )
    }
}

fn joined(a: &str, b: &str, c: &str) -> (r: String)
    ensures
        r@ == a@ + b@ + c@,
{
    let mut r = a.to_owned();
    r.append(b);
    r.append(c);
    r
}

fn list_models_of(models: &Vec<String>, api_url: &String, api_key: &String, prefix: &String, provider: &String) -> (r: Vec<(String, ModelConfig)>)
    ensures
        entry_views(r@) == listed_models(views(models@), api_url@, api_key@, prefix@, provider@),
{
    let mut r: Vec<(String, ModelConfig)> = Vec::new();
    let n = models.len();
    let mut i: usize = 0;
    assert(views(models@).take(0) =~= Seq::<Seq<char>>::empty());
    assert(entry_views(r@) =~= Seq::<(Seq<char>, ModelConfigView)>::empty());
    while i < n
        invariant
            i <= n,
            n == models.len(),
            entry_views(r@) == listed_models(views(models@).take(i as int), api_url@, api_key@, prefix@, provider@),
        decreases n - i,
    {
        let m = &models[i];
        let name = joined(prefix.as_str(), " ", m.as_str());
        let cfg = make_config(api_url, api_key, name, m, provider);
        let ghost before = r@;
        r.push((m.clone(), cfg));
        proof {
            let p = views(models@).take(i + 1);
            assert(p.drop_last() =~= views(models@).take(i as int));
            assert(p.last() == models@[i as int]@);
            assert(entry_views(r@) =~= entry_views(before).push((models@[i as int]@, cfg@)));
        }
        i = i + 1;
    }
    assert(views(models@).take(n as int) =~= views(models@));
    r
}

/// The models of the `OPENAI_*` group: with one model it is served under the default
/// model id; with several, each under its own name. Nothing unless the base URL, the
/// key and at least one model are all set.
pub open spec fn default_group(env: Seq<(Seq<char>, Seq<char>)>) -> Seq<(Seq<char>, ModelConfigView)> {
    let url = env_value(env, "OPENAI_BASE_URL"@);
    let key = env_value(env, "OPENAI_API_KEY"@);
    let models = env_list(env, "OPENAI_MODEL"@);
    let id = opt_or(env_value(env, "DEFAULT_MODEL_ID"@), "DefaultModel"@);
    let name = opt_or(env_value(env, "DEFAULT_MODEL_NAME"@), "Default Model"@);
    if url is Some && key is Some && models.len() > 0 {
        let api_url = normalized_api_url(url->0);
        if models.len() == 1 {
            seq![(id, compat_config(api_url, key->0, name + " ("@ + models[0] + ")"@, models[0], "openai_compat"@))]
        } else {
            listed_models(models, api_url, key->0, "OpenAI-Compatible"@, "openai_compat"@)
        }
    } else {
        Seq::empty()
    }
}

/// The models of the `OPENAI_COMPAT_*` group, each under its own name. Nothing unless
/// the URL, the key and at least one model are all set.
pub open spec fn compat_group(env: Seq<(Seq<char>, Seq<char>)>) -> Seq<(Seq<char>, ModelConfigView)> {
    let url = env_value(env, "OPENAI_COMPAT_API_URL"@);
    let key = env_value(env, "OPENAI_COMPAT_API_KEY"@);
    let models = env_list(env, "OPENAI_COMPAT_MODELS"@);
    let prefix = opt_or(env_value(env, "OPENAI_COMPAT_NAME_PREFIX"@), "OpenAI-Compatible"@);
    let provider = opt_or(env_value(env, "OPENAI_COMPAT_PROVIDER_NAME"@), "openai_compat"@);
    if url is Some && key is Some && models.len() > 0 {
        listed_models(models, normalized_api_url(url->0), key->0, prefix, provider)
    } else {
        Seq::empty()
    }
}

fn value_or(o: Option<String>, d: &str) -> (r: String)
    ensures
        r@ == opt_or(opt_view(o), d@),
{
    match o {
        Some(v) => v,
        None => d.to_owned(),
    }
}

fn default_group_of(env: &EnvVars) -> (r: Vec<(String, ModelConfig)>)
    ensures
        entry_views(r@) == default_group(env@),
{
    let id = value_or(env_non_empty(env, "DEFAULT_MODEL_ID"), "DefaultModel");
    let name = value_or(env_non_empty(env, "DEFAULT_MODEL_NAME"), "Default Model");
    let url = env_non_empty(env, "OPENAI_BASE_URL");
    let key = env_non_empty(env, "OPENAI_API_KEY");
    let models = parse_csv_env(env, "OPENAI_MODEL");
    match (url, key) {
        (Some(url), Some(key)) => {
            if models.len() == 0 {
                let r: Vec<(String, ModelConfig)> = Vec::new();
                assert(entry_views(r@) =~= Seq::<(Seq<char>, ModelConfigView)>::empty());
                return r;
            }
            let api_url = normalize_api_url(url.as_str());
            let provider = "openai_compat".to_owned();
            if models.len() == 1 {
                let upstream = &models[0];
                let mut full_name = joined(name.as_str(), " (", upstream.as_str());
                full_name.append(")");
                let cfg = make_config(&api_url, &key, full_name, upstream, &provider);
                let mut r: Vec<(String, ModelConfig)> = Vec::new();
                r.push((id, cfg));
                assert(entry_views(r@) =~= default_group(env@));
                r
            } else {
                let prefix = "OpenAI-Compatible".to_owned();
                list_models_of(&models, &api_url, &key, &prefix, &provider)
            }
        },
        _ => {
            let r: Vec<(String, ModelConfig)> = Vec::new();
            assert(entry_views(r@) =~= Seq::<(Seq<char>, ModelConfigView)>::empty());
            r
        },
    }
}

fn compat_group_of(env: &EnvVars) -> (r: Vec<(String, ModelConfig)>)
    ensures
        entry_views(r@) == compat_group(env@),
{
    let url = env_non_empty(env, "OPENAI_COMPAT_API_URL");
    let key = env_non_empty(env, "OPENAI_COMPAT_API_KEY");
    let models = parse_csv_env(env, "OPENAI_COMPAT_MODELS");
    let prefix = value_or(env_non_empty(env, "OPENAI_COMPAT_NAME_PREFIX"), "OpenAI-Compatible");
    let provider = value_or(env_non_empty(env, "OPENAI_COMPAT_PROVIDER_NAME"), "openai_compat");
    match (url, key) {
        (Some(url), Some(key)) => {
            if models.len() == 0 {
                let r: Vec<(String, ModelConfig)> = Vec::new();
                assert(entry_views(r@) =~= Seq::<(Seq<char>, ModelConfigView)>::empty());
                return r;
            }
            let api_url = normalize_api_url(url.as_str());
            list_models_of(&models, &api_url, &key, &prefix, &provider)
        },
        _ => {
            let r: Vec<(String, ModelConfig)> = Vec::new();
            assert(entry_views(r@) =~= Seq::<(Seq<char>, ModelConfigView)>::empty());
            r
        },
    }
}


/// The name of the variable that holds one setting of an extra model.
pub open spec fn extra_model_key(model_id: Seq<char>, field: Seq<char>) -> Seq<char> {
    "MODEL_"@ + model_id + field
}

pub open spec fn invalid_extra_id_message(model_id: Seq<char>) -> Seq<char> {
    "❌ EXTRA_MODEL_IDS 中模型 id 无效: "@ + model_id + "。仅支持字母、数字、下划线，且不能以数字开头。"@
}

pub open spec fn incomplete_extra_message(model_id: Seq<char>, key: Seq<char>) -> Seq<char> {
    "❌ 模型 "@ + model_id + " 配置不完整，缺少 "@ + key
}

pub open spec fn no_models_message() -> Seq<char> {
    "❌ 未配置任何模型。请先执行 xcodeaiproxy setup，或在 .env 中配置 EXTRA_MODEL_IDS 追加更多模型。"@
}

/// The entry of one extra model, or why it cannot be built: the id must be valid,
/// and its base URL, key and upstream model must be set.
pub open spec fn extra_model(env: Seq<(Seq<char>, Seq<char>)>, model_id: Seq<char>) -> Result<(Seq<char>, ModelConfigView), Seq<char>> {
    let url_key = extra_model_key(model_id, "_BASE_URL"@);
    let api_key_key = extra_model_key(model_id, "_API_KEY"@);
    let model_key = extra_model_key(model_id, "_MODEL"@);
    let name = opt_or(env_value(env, extra_model_key(model_id, "_NAME"@)), "OpenAI-Compatible"@ + " "@ + model_id);
    let provider = opt_or(env_value(env, extra_model_key(model_id, "_PROVIDER"@)), "openai_compat"@);
    if !valid_extra_model_id(model_id) {
        Err(invalid_extra_id_message(model_id))
    } else {
        match env_value(env, url_key) {
            None => Err(incomplete_extra_message(model_id, url_key)),
            Some(url) => match env_value(env, api_key_key) {
                None => Err(incomplete_extra_message(model_id, api_key_key)),
                Some(key) => match env_value(env, model_key) {
                    None => Err(incomplete_extra_message(model_id, model_key)),
                    Some(upstream) => Ok(
                        (model_id, compat_config(normalized_api_url(url), key, name, upstream, provider)),
                    ),
                },
            },
        }
    }
}

/// The entries of the extra models in order, up to the first that cannot be built,
/// and the reason that one cannot be built.
pub open spec fn extra_models(env: Seq<(Seq<char>, Seq<char>)>, ids: Seq<Seq<char>>) -> (Seq<(Seq<char>, ModelConfigView)>, Option<Seq<char>>)
    decreases ids.len(),
{
    if ids.len() == 0 {
        (Seq::empty(), None)
    } else {
        let p = extra_models(env, ids.drop_last());
        if p.1 is Some {
            p
        } else {
            match extra_model(env, ids.last()) {
                Ok(e) => (p.0.push(e), None),
                Err(m) => (p.0, Some(m)),
            }
        }
    }
}

pub proof fn lemma_extra_models_stop(env: Seq<(Seq<char>, Seq<char>)>, ids: Seq<Seq<char>>, k: int)
    requires
        0 <= k <= ids.len(),
        extra_models(env, ids.take(k)).1 is Some,
    ensures
        extra_models(env, ids) == extra_models(env, ids.take(k)),
    decreases ids.len() - k,
{
    if k < ids.len() {
        let t = ids.drop_last();
        assert(t.take(k) =~= ids.take(k));
        lemma_extra_models_stop(env, t, k);
    } else {
        assert(ids.take(k) =~= ids);
    }
}

fn require_var(env: &EnvVars, model_id: &str, key: &String) -> (r: Result<String, String>)
    ensures
        match env_value(env@, key@) {
            Some(v) => r matches Ok(x) && x@ == v,
            None => r matches Err(m) && m@ == incomplete_extra_message(model_id@, key@),
        },
{
    match env_non_empty(env, key.as_str()) {
        Some(v) => Ok(v),
        None => Err(joined("❌ 模型 ", model_id, " 配置不完整，缺少 ").concat(key.as_str())),
    }
}

fn extra_model_of(env: &EnvVars, model_id: &String) -> (r: Result<(String, ModelConfig), String>)
    ensures
        match extra_model(env@, model_id@) {
            Ok(e) => r matches Ok(x) && (x.0@, x.1@) == e,
            Err(m) => r matches Err(x) && x@ == m,
        },
{
    if !is_valid_extra_model_id(model_id.as_str()) {
        return Err(
            joined("❌ EXTRA_MODEL_IDS 中模型 id 无效: ", model_id.as_str(), "。仅支持字母、数字、下划线，且不能以数字开头。"),
        );
    }
    let url_key = joined("MODEL_", model_id.as_str(), "_BASE_URL");
    let api_key_key = joined("MODEL_", model_id.as_str(), "_API_KEY");
    let model_key = joined("MODEL_", model_id.as_str(), "_MODEL");
    let name_key = joined("MODEL_", model_id.as_str(), "_NAME");
    let provider_key = joined("MODEL_", model_id.as_str(), "_PROVIDER");
    let url = require_var(env, model_id.as_str(), &url_key)?;
    let api_key = require_var(env, model_id.as_str(), &api_key_key)?;
    let upstream = require_var(env, model_id.as_str(), &model_key)?;
    let name = match env_non_empty(env, name_key.as_str()) {
        Some(n) => n,
        None => joined("OpenAI-Compatible", " ", model_id.as_str()),
    };
    let provider = value_or(env_non_empty(env, provider_key.as_str()), "openai_compat");
    let cfg = make_config(&normalize_api_url(url.as_str()), &api_key, name, &upstream, &provider);
    Ok((model_id.clone(), cfg))
}

/// Adds the models that `EXTRA_MODEL_IDS` lists, in order, each configured by its
/// `MODEL_<id>_*` variables; stops at the first that is invalid or incomplete and
/// reports it, keeping what was added before it.
pub fn load_extra_models(env: &EnvVars, api_configs: &mut ModelTable) -> (r: Result<(), String>)
    ensures
        ({
            let o = extra_models(env@, env_list(env@, "EXTRA_MODEL_IDS"@));
            &&& final(api_configs)@ == with_models(old(api_configs)@, o.0)
            &&& match o.1 {
                None => r is Ok,
                Some(m) => r matches Err(e) && e@ == m,
            }
        }),
{
    let ids = parse_csv_env(env, "EXTRA_MODEL_IDS");
    let ghost all = views(ids@);
    let ghost start = api_configs@;
    let n = ids.len();
    let mut i: usize = 0;
    assert(all.take(0) =~= Seq::<Seq<char>>::empty());
    while i < n
        invariant
            i <= n,
            n == ids.len(),
            all == views(ids@),
            all == env_list(env@, "EXTRA_MODEL_IDS"@),
            extra_models(env@, all.take(i as int)).1 is None,
            api_configs@ == with_models(start, extra_models(env@, all.take(i as int)).0),
            start == old(api_configs)@,
        decreases n - i,
    {
        let e = extra_model_of(env, &ids[i]);
        proof {
            let p = all.take(i + 1);
            assert(p.drop_last() =~= all.take(i as int));
            assert(p.last() == ids@[i as int]@);
        }
        match e {
            Err(m) => {
                proof {
                    lemma_extra_models_stop(env@, all, i + 1);
                }
                return Err(m);
            },
            Ok((id, cfg)) => {
                let ghost prev = extra_models(env@, all.take(i as int)).0;
                let ghost e = (id@, cfg@);
                add_model_config(api_configs, id.as_str(), cfg);
                proof {
                    assert(extra_models(env@, all.take(i + 1)).0 == prev.push(e));
                    assert(prev.push(e).drop_last() =~= prev);
                }
            },
        }
        i = i + 1;
    }
    assert(all.take(n as int) =~= all);
    Ok(())
}

/// The proxy's settings.
#[derive(Debug)]
pub struct AppConfig {
    pub host: String,
    pub port: u16,
    pub max_retries: usize,
    pub retry_delay_ms: u64,
    pub request_timeout_ms: u64,
    pub api_configs: ModelTable,
}

pub struct AppConfigView {
    pub host: Seq<char>,
    pub port: int,
    pub max_retries: int,
    pub retry_delay_ms: int,
    pub request_timeout_ms: int,
    pub api_configs: Seq<(Seq<char>, ModelConfigView)>,
}

impl View for AppConfig {
    type V = AppConfigView;

    open spec fn view(&self) -> AppConfigView {
        AppConfigView {
            host: self.host@,
            port: self.port as int,
            max_retries: self.max_retries as int,
            retry_delay_ms: self.retry_delay_ms as int,
            request_timeout_ms: self.request_timeout_ms as int,
            api_configs: self.api_configs@,
        }
    }
}

/// The settings that an environment gives, or the first reason it gives none: the
/// numeric settings are read first, then the `OPENAI_*` group, the `OPENAI_COMPAT_*`
/// group and the extra models are added in that order (the first configuration of an
/// id stays), and at least one model must result.
pub open spec fn loaded_config(env: Seq<(Seq<char>, Seq<char>)>) -> Result<AppConfigView, Seq<char>> {
    let port = env_number(env, "PORT"@, 3000, u16::MAX as int, true);
    let max_retries = env_number(env, "MAX_RETRIES"@, 3, usize::MAX as int, false);
    let retry_delay = env_number(env, "RETRY_DELAY"@, 1000, u64::MAX as int, false);
    let timeout = env_number(env, "REQUEST_TIMEOUT"@, 60000, u64::MAX as int, false);
    let groups = with_models(Seq::empty(), default_group(env) + compat_group(env));
    let extra = extra_models(env, env_list(env, "EXTRA_MODEL_IDS"@));
    let table = with_models(groups, extra.0);
    if port is Err {
        Err(port->Err_0)
    } else if max_retries is Err {
        Err(max_retries->Err_0)
    } else if retry_delay is Err {
        Err(retry_delay->Err_0)
    } else if timeout is Err {
        Err(timeout->Err_0)
    } else if extra.1 is Some {
        Err(extra.1->0)
    } else if table.len() == 0 {
        Err(no_models_message())
    } else {
        Ok(
            AppConfigView {
                host: opt_or(env_value(env, "HOST"@), "0.0.0.0"@),
                port: port->Ok_0,
                max_retries: max_retries->Ok_0,
                retry_delay_ms: retry_delay->Ok_0,
                request_timeout_ms: timeout->Ok_0,
                api_configs: table,
            },
        )
    }
}

/// Reads the proxy's settings from an environment snapshot.
pub fn load_config(env: &EnvVars) -> (r: Result<AppConfig, String>)
    ensures
        match loaded_config(env@) {
            Ok(c) => r matches Ok(x) && x@ == c,
            Err(m) => r matches Err(e) && e@ == m,
        },
        r matches Ok(x) ==> ids_distinct(x.api_configs@) && x.api_configs@.len() > 0,
{
    let host = value_or(env_non_empty(env, "HOST"), "0.0.0.0");
    let port = parse_env_u16(env, "PORT", 3000)?;
    let max_retries = parse_env_usize(env, "MAX_RETRIES", 3)?;
    let retry_delay_ms = parse_env_u64(env, "RETRY_DELAY", 1000)?;
    let request_timeout_ms = parse_env_u64(env, "REQUEST_TIMEOUT", 60_000)?;
    let mut api_configs = ModelTable::new();
    let defaults = default_group_of(env);
    add_all(&mut api_configs, &defaults);
    let compat = compat_group_of(env);
    add_all(&mut api_configs, &compat);
    proof {
        lemma_with_models_append(Seq::empty(), default_group(env@), compat_group(env@));
        lemma_with_models_distinct(Seq::empty(), default_group(env@) + compat_group(env@));
    }
    load_extra_models(env, &mut api_configs)?;
    proof {
        let groups = with_models(Seq::empty(), default_group(env@) + compat_group(env@));
        lemma_with_models_distinct(groups, extra_models(env@, env_list(env@, "EXTRA_MODEL_IDS"@)).0);
    }
    if api_configs.is_empty() {
        return Err(
            "❌ 未配置任何模型。请先执行 xcodeaiproxy setup，或在 .env 中配置 EXTRA_MODEL_IDS 追加更多模型。".to_owned(),
        );
    }
    Ok(AppConfig { host, port, max_retries, retry_delay_ms, request_timeout_ms, api_configs })
}

} // verus!
