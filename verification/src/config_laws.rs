use vstd::prelude::*;

use crate::config::{
    compat_config, compat_group, default_group, extra_model, listed_models, loaded_config, opt_or, extra_model_key, extra_models, incomplete_extra_message, invalid_extra_id_message,
    lemma_extra_models_stop, lemma_table_get_none, lemma_table_get_prefix, table_get, table_map, with_model, with_models,
    ModelConfigView,
};
use crate::env::{env_list, env_number, env_value, lemma_env_value_shape};
use crate::text::{csv_items, is_ws, lemma_csv_items_shape, normalized_api_url, trim, valid_extra_model_id};

verus! {

/// Adding candidates keeps every configuration already in the table.
pub proof fn lemma_with_models_keeps(
    s: Seq<(Seq<char>, ModelConfigView)>,
    cands: Seq<(Seq<char>, ModelConfigView)>,
    id: Seq<char>,
)
    requires
        table_get(s, id) is Some,
    ensures
        table_get(with_models(s, cands), id) == table_get(s, id),
    decreases cands.len(),
{
    if cands.len() > 0 {
        let t = with_models(s, cands.drop_last());
        lemma_with_models_keeps(s, cands.drop_last(), id);
        if table_get(t, cands.last().0) is None {
            assert(with_model(t, cands.last().0, cands.last().1).drop_last() =~= t);
        }
    }
}

/// An id missing from the table gets the configuration of its first candidate.
pub proof fn lemma_with_models_new(
    s: Seq<(Seq<char>, ModelConfigView)>,
    cands: Seq<(Seq<char>, ModelConfigView)>,
    id: Seq<char>,
)
    requires
        table_get(s, id) is None,
    ensures
        table_get(with_models(s, cands), id) == table_get(cands, id),
    decreases cands.len(),
{
    if cands.len() > 0 {
        let c0 = cands.drop_last();
        let t = with_models(s, c0);
        lemma_with_models_new(s, c0, id);
        let last = cands.last();
        if table_get(t, last.0) is None {
            assert(with_model(t, last.0, last.1).drop_last() =~= t);
        } else {
            if last.0 == id {
                assert(table_get(c0, id) is Some);
            }
        }
    }
}

/// The ids of the table after adding candidates: those it had and those of the
/// candidates.
pub proof fn lemma_with_models_ids(
    s: Seq<(Seq<char>, ModelConfigView)>,
    cands: Seq<(Seq<char>, ModelConfigView)>,
    id: Seq<char>,
)
    ensures
        table_get(with_models(s, cands), id) is Some <==> (table_get(s, id) is Some || exists|i: int|
            0 <= i < cands.len() && (#[trigger] cands[i]).0 == id),
{
    if table_get(s, id) is Some {
        lemma_with_models_keeps(s, cands, id);
    } else {
        lemma_with_models_new(s, cands, id);
        lemma_table_get_none(cands, id);
    }
}

/// Where a property holds of every entry of the table and of every candidate, it
/// holds of every entry after adding them.
pub proof fn lemma_with_models_all(
    s: Seq<(Seq<char>, ModelConfigView)>,
    cands: Seq<(Seq<char>, ModelConfigView)>,
    p: spec_fn(Seq<char>, ModelConfigView) -> bool,
)
    requires
        forall|i: int| 0 <= i < s.len() ==> p((#[trigger] s[i]).0, s[i].1),
        forall|i: int| 0 <= i < cands.len() ==> p((#[trigger] cands[i]).0, cands[i].1),
    ensures
        ({
            let r = with_models(s, cands);
            forall|i: int| 0 <= i < r.len() ==> p((#[trigger] r[i]).0, r[i].1)
        }),
    decreases cands.len(),
{
    if cands.len() > 0 {
        let c0 = cands.drop_last();
        assert forall|i: int| 0 <= i < c0.len() implies p((#[trigger] c0[i]).0, c0[i].1) by {
            assert(c0[i] == cands[i]);
        }
        lemma_with_models_all(s, c0, p);
        let t = with_models(s, c0);
        let last = cands.last();
        assert(p(cands[cands.len() - 1].0, cands[cands.len() - 1].1));
        if table_get(t, last.0) is None {
            let r = t.push(last);
            assert forall|i: int| 0 <= i < r.len() implies p((#[trigger] r[i]).0, r[i].1) by {
                if i < t.len() {
                    assert(r[i] == t[i]);
                }
            }
        }
    }
}

/// What `table_get` finds is the configuration of an entry with that id.
pub proof fn lemma_table_get_some(s: Seq<(Seq<char>, ModelConfigView)>, id: Seq<char>)
    requires
        table_get(s, id) is Some,
    ensures
        exists|i: int| 0 <= i < s.len() && (#[trigger] s[i]).0 == id && table_get(s, id) == Some(s[i].1),
    decreases s.len(),
{
    let t = s.drop_last();
    if table_get(t, id) is Some {
        lemma_table_get_some(t, id);
        let i = choose|i: int| 0 <= i < t.len() && (#[trigger] t[i]).0 == id && table_get(t, id) == Some(t[i].1);
        assert(s[i] == t[i]);
    } else {
        assert(s[s.len() - 1].0 == id);
    }
}

/// The ids that the entries of `s` carry.
pub open spec fn entry_ids(s: Seq<(Seq<char>, ModelConfigView)>) -> Set<Seq<char>> {
    Set::new(|id: Seq<char>| exists|i: int| 0 <= i < s.len() && (#[trigger] s[i]).0 == id)
}

/// The ids of the table after adding candidates are those it had and those of the
/// candidates.
pub proof fn lemma_with_models_dom(
    s: Seq<(Seq<char>, ModelConfigView)>,
    cands: Seq<(Seq<char>, ModelConfigView)>,
)
    ensures
        table_map(with_models(s, cands)).dom() == table_map(s).dom() + entry_ids(cands),
{
    let r = with_models(s, cands);
    assert forall|id: Seq<char>| #[trigger] table_map(r).dom().contains(id) <==> (table_map(s).dom()
        + entry_ids(cands)).contains(id) by {
        lemma_with_models_ids(s, cands, id);
    }
    assert(table_map(r).dom() =~= table_map(s).dom() + entry_ids(cands));
}

/// Whether the extra model `id` can be built: a valid id whose base URL, key and
/// upstream model are all set.
pub open spec fn extra_model_complete(env: Seq<(Seq<char>, Seq<char>)>, id: Seq<char>) -> bool {
    &&& valid_extra_model_id(id)
    &&& env_value(env, extra_model_key(id, "_BASE_URL"@)) is Some
    &&& env_value(env, extra_model_key(id, "_API_KEY"@)) is Some
    &&& env_value(env, extra_model_key(id, "_MODEL"@)) is Some
}

/// Why the extra model `id` cannot be built: an invalid id, else the first of its
/// base URL, key and upstream model that is not set.
pub open spec fn extra_model_problem(env: Seq<(Seq<char>, Seq<char>)>, id: Seq<char>) -> Seq<char> {
    let url_key = extra_model_key(id, "_BASE_URL"@);
    let api_key_key = extra_model_key(id, "_API_KEY"@);
    if !valid_extra_model_id(id) {
        invalid_extra_id_message(id)
    } else if env_value(env, url_key) is None {
        incomplete_extra_message(id, url_key)
    } else if env_value(env, api_key_key) is None {
        incomplete_extra_message(id, api_key_key)
    } else {
        incomplete_extra_message(id, extra_model_key(id, "_MODEL"@))
    }
}

/// The entries of the extra models `ids`, each built from its own variables.
pub open spec fn extra_entries(env: Seq<(Seq<char>, Seq<char>)>, ids: Seq<Seq<char>>) -> Seq<(Seq<char>, ModelConfigView)> {
    Seq::new(ids.len(), |i: int| extra_model(env, ids[i])->Ok_0)
}

/// An extra model is built, under its own id, exactly when it is complete; otherwise
/// the reason is its problem.
pub proof fn lemma_extra_model_ok(env: Seq<(Seq<char>, Seq<char>)>, id: Seq<char>)
    ensures
        extra_model(env, id) is Ok <==> extra_model_complete(env, id),
        extra_model(env, id) matches Ok(e) ==> e.0 == id,
        extra_model(env, id) matches Err(m) ==> m == extra_model_problem(env, id),
{
}

proof fn lemma_extra_models_prefix(env: Seq<(Seq<char>, Seq<char>)>, ids: Seq<Seq<char>>, k: int)
    requires
        0 <= k <= ids.len(),
        forall|i: int| 0 <= i < k ==> extra_model_complete(env, #[trigger] ids[i]),
    ensures
        extra_models(env, ids.take(k)) == (extra_entries(env, ids.take(k)), None::<Seq<char>>),
    decreases k,
{
    if k > 0 {
        lemma_extra_models_prefix(env, ids, k - 1);
        let t = ids.take(k);
        assert(t.drop_last() =~= ids.take(k - 1));
        assert(t.last() == ids[k - 1]);
        lemma_extra_model_ok(env, ids[k - 1]);
        assert(extra_entries(env, t) =~= extra_entries(env, ids.take(k - 1)).push(
            extra_model(env, ids[k - 1])->Ok_0,
        ));
    } else {
        assert(extra_entries(env, ids.take(0)) =~= Seq::<(Seq<char>, ModelConfigView)>::empty());
    }
}

/// The extra models all load exactly when each of them is complete, and then they
/// give their entries in order.
pub proof fn lemma_extra_models_all_ok(env: Seq<(Seq<char>, Seq<char>)>, ids: Seq<Seq<char>>)
    ensures
        extra_models(env, ids).1 is None <==> forall|i: int|
            0 <= i < ids.len() ==> extra_model_complete(env, #[trigger] ids[i]),
        extra_models(env, ids).1 is None ==> extra_models(env, ids).0 == extra_entries(env, ids),
    decreases ids.len(),
{
    if ids.len() > 0 {
        let t = ids.drop_last();
        lemma_extra_models_all_ok(env, t);
        lemma_extra_model_ok(env, ids.last());
        if extra_models(env, ids).1 is None {
            assert forall|i: int| 0 <= i < ids.len() implies extra_model_complete(env, #[trigger] ids[i]) by {
                if i < ids.len() - 1 {
                    assert(ids[i] == t[i]);
                }
            }
            assert(extra_entries(env, ids) =~= extra_entries(env, t).push(extra_model(env, ids.last())->Ok_0));
        } else if extra_models(env, t).1 is Some {
            assert(!forall|i: int| 0 <= i < t.len() ==> extra_model_complete(env, #[trigger] t[i]));
            let i = choose|i: int| 0 <= i < t.len() && !extra_model_complete(env, #[trigger] t[i]);
            assert(ids[i] == t[i]);
        } else {
            assert(!extra_model_complete(env, ids[ids.len() - 1]));
        }
    }
}

proof fn lemma_extra_entries_ids(env: Seq<(Seq<char>, Seq<char>)>, ids: Seq<Seq<char>>)
    requires
        forall|i: int| 0 <= i < ids.len() ==> extra_model_complete(env, #[trigger] ids[i]),
    ensures
        entry_ids(extra_entries(env, ids)) == ids.to_set(),
{
    let e = extra_entries(env, ids);
    assert forall|id: Seq<char>| #[trigger] entry_ids(e).contains(id) <==> ids.to_set().contains(id) by {
        if entry_ids(e).contains(id) {
            let i = choose|i: int| 0 <= i < e.len() && (#[trigger] e[i]).0 == id;
            lemma_extra_model_ok(env, ids[i]);
            assert(ids.contains(id));
        }
        if ids.contains(id) {
            let i = choose|i: int| 0 <= i < ids.len() && ids[i] == id;
            lemma_extra_model_ok(env, ids[i]);
            assert(e[i].0 == id);
        }
    }
    assert(entry_ids(e) =~= ids.to_set());
}

/// When every model that `EXTRA_MODEL_IDS` lists is complete, loading them succeeds,
/// the table then holds exactly the ids it held and the listed ones, and no
/// configuration it held changes.
pub proof fn lemma_load_extra_models_complete(
    env: Seq<(Seq<char>, Seq<char>)>,
    s: Seq<(Seq<char>, ModelConfigView)>,
)
    requires
        forall|i: int| 0 <= i < env_list(env, "EXTRA_MODEL_IDS"@).len() ==> extra_model_complete(
            env,
            #[trigger] env_list(env, "EXTRA_MODEL_IDS"@)[i],
        ),
    ensures
        ({
            let ids = env_list(env, "EXTRA_MODEL_IDS"@);
            let o = extra_models(env, ids);
            let r = with_models(s, o.0);
            &&& o.1 is None
            &&& table_map(r).dom() == table_map(s).dom() + ids.to_set()
            &&& forall|id: Seq<char>| #[trigger] table_map(s).contains_key(id) ==> table_map(r)[id] == table_map(s)[id]
        }),
{
    let ids = env_list(env, "EXTRA_MODEL_IDS"@);
    lemma_extra_models_all_ok(env, ids);
    let o = extra_models(env, ids);
    lemma_with_models_dom(s, o.0);
    lemma_extra_entries_ids(env, ids);
    assert forall|id: Seq<char>| #[trigger] table_map(s).contains_key(id) implies table_map(with_models(s, o.0))[id]
        == table_map(s)[id] by {
        lemma_with_models_keeps(s, o.0, id);
    }
}

/// A model that `EXTRA_MODEL_IDS` lists and the table did not hold gets, once loading
/// succeeds, the configuration that its own variables give.
pub proof fn lemma_load_extra_models_entry(
    env: Seq<(Seq<char>, Seq<char>)>,
    s: Seq<(Seq<char>, ModelConfigView)>,
    id: Seq<char>,
)
    requires
        env_list(env, "EXTRA_MODEL_IDS"@).contains(id),
        table_get(s, id) is None,
        extra_models(env, env_list(env, "EXTRA_MODEL_IDS"@)).1 is None,
    ensures
        extra_model(env, id) is Ok,
        table_get(with_models(s, extra_models(env, env_list(env, "EXTRA_MODEL_IDS"@)).0), id) == Some(
            extra_model(env, id)->Ok_0.1,
        ),
{
    let ids = env_list(env, "EXTRA_MODEL_IDS"@);
    lemma_extra_models_all_ok(env, ids);
    let e = extra_entries(env, ids);
    let k = choose|k: int| 0 <= k < ids.len() && ids[k] == id;
    assert(extra_model_complete(env, ids[k]));
    lemma_extra_model_ok(env, id);
    lemma_with_models_new(s, e, id);
    lemma_table_get_none(e, id);
    assert(e[k].0 == id);
    lemma_table_get_some(e, id);
    let j = choose|j: int| 0 <= j < e.len() && (#[trigger] e[j]).0 == id && table_get(e, id) == Some(e[j].1);
    lemma_extra_model_ok(env, ids[j]);
}

/// Loading stops at the first model that `EXTRA_MODEL_IDS` lists and that is not
/// complete: it reports that model's problem, keeps every configuration the table
/// held, and adds exactly the listed models before it.
pub proof fn lemma_load_extra_models_stops(
    env: Seq<(Seq<char>, Seq<char>)>,
    s: Seq<(Seq<char>, ModelConfigView)>,
    j: int,
)
    requires
        0 <= j < env_list(env, "EXTRA_MODEL_IDS"@).len(),
        !extra_model_complete(env, env_list(env, "EXTRA_MODEL_IDS"@)[j]),
        forall|i: int| 0 <= i < j ==> extra_model_complete(env, #[trigger] env_list(env, "EXTRA_MODEL_IDS"@)[i]),
    ensures
        ({
            let ids = env_list(env, "EXTRA_MODEL_IDS"@);
            let o = extra_models(env, ids);
            let r = with_models(s, o.0);
            &&& o.1 == Some(extra_model_problem(env, ids[j]))
            &&& table_map(r).dom() == table_map(s).dom() + ids.take(j).to_set()
            &&& forall|id: Seq<char>| #[trigger] table_map(s).contains_key(id) ==> table_map(r)[id] == table_map(s)[id]
        }),
{
    let ids = env_list(env, "EXTRA_MODEL_IDS"@);
    let t = ids.take(j + 1);
    assert(t.drop_last() =~= ids.take(j));
    assert(t.last() == ids[j]);
    lemma_extra_models_prefix(env, ids, j);
    lemma_extra_model_ok(env, ids[j]);
    lemma_extra_models_stop(env, ids, j + 1);
    let o = extra_models(env, ids);
    assert(o.0 == extra_entries(env, ids.take(j)));
    assert forall|i: int| 0 <= i < ids.take(j).len() implies extra_model_complete(env, #[trigger] ids.take(j)[i]) by {
        assert(ids.take(j)[i] == ids[i]);
    }
    lemma_extra_entries_ids(env, ids.take(j));
    lemma_with_models_dom(s, o.0);
    assert forall|id: Seq<char>| #[trigger] table_map(s).contains_key(id) implies table_map(with_models(s, o.0))[id]
        == table_map(s)[id] by {
        lemma_with_models_keeps(s, o.0, id);
    }
}

/// Whether the `OPENAI_*` group is configured: its base URL, its key and at least
/// one model.
pub open spec fn default_group_set(env: Seq<(Seq<char>, Seq<char>)>) -> bool {
    &&& env_value(env, "OPENAI_BASE_URL"@) is Some
    &&& env_value(env, "OPENAI_API_KEY"@) is Some
    &&& env_list(env, "OPENAI_MODEL"@).len() > 0
}

/// Whether the `OPENAI_COMPAT_*` group is configured: its URL, its key and at least
/// one model.
pub open spec fn compat_group_set(env: Seq<(Seq<char>, Seq<char>)>) -> bool {
    &&& env_value(env, "OPENAI_COMPAT_API_URL"@) is Some
    &&& env_value(env, "OPENAI_COMPAT_API_KEY"@) is Some
    &&& env_list(env, "OPENAI_COMPAT_MODELS"@).len() > 0
}

/// Whether one of the numeric settings is set to what is not a number in its range.
pub open spec fn numeric_setting_invalid(env: Seq<(Seq<char>, Seq<char>)>) -> bool {
    ||| env_number(env, "PORT"@, 3000, u16::MAX as int, true) is Err
    ||| env_number(env, "MAX_RETRIES"@, 3, usize::MAX as int, false) is Err
    ||| env_number(env, "RETRY_DELAY"@, 1000, u64::MAX as int, false) is Err
    ||| env_number(env, "REQUEST_TIMEOUT"@, 60000, u64::MAX as int, false) is Err
}

/// The ids that the `OPENAI_*` group serves: the default model id for a single
/// model, else the models themselves.
pub open spec fn default_group_ids(env: Seq<(Seq<char>, Seq<char>)>) -> Set<Seq<char>> {
    let models = env_list(env, "OPENAI_MODEL"@);
    if default_group_set(env) {
        if models.len() == 1 {
            set![opt_or(env_value(env, "DEFAULT_MODEL_ID"@), "DefaultModel"@)]
        } else {
            models.to_set()
        }
    } else {
        Set::empty()
    }
}

/// The ids that the `OPENAI_COMPAT_*` group serves: its models.
pub open spec fn compat_group_ids(env: Seq<(Seq<char>, Seq<char>)>) -> Set<Seq<char>> {
    if compat_group_set(env) {
        env_list(env, "OPENAI_COMPAT_MODELS"@).to_set()
    } else {
        Set::empty()
    }
}

/// The shape of every entry of a loaded table: a trimmed, non-empty id and key, an
/// OpenAI-compatible type, an upstream model and a provider, and a non-empty name.
pub open spec fn well_formed_entry(id: Seq<char>, c: ModelConfigView) -> bool {
    &&& id.len() > 0
    &&& trim(id) == id
    &&& c.model_type == "openai_compat"@
    &&& c.upstream_model is Some
    &&& c.provider is Some
    &&& c.api_key.len() > 0
    &&& trim(c.api_key) == c.api_key
    &&& c.name.len() > 0
}

proof fn lemma_trim_fixed(v: Seq<char>)
    requires
        v.len() > 0,
        !is_ws(v[0]),
        !is_ws(v.last()),
    ensures
        trim(v) == v,
{
}

proof fn lemma_env_value_trimmed(env: Seq<(Seq<char>, Seq<char>)>, key: Seq<char>)
    ensures
        env_value(env, key) matches Some(v) ==> v.len() > 0 && trim(v) == v,
{
    lemma_env_value_shape(env, key);
    if let Some(v) = env_value(env, key) {
        lemma_trim_fixed(v);
    }
}

proof fn lemma_env_list_trimmed(env: Seq<(Seq<char>, Seq<char>)>, key: Seq<char>)
    ensures
        forall|i: int| 0 <= i < env_list(env, key).len() ==> (#[trigger] env_list(env, key)[i]).len() > 0
            && trim(env_list(env, key)[i]) == env_list(env, key)[i],
{
    if let Some(raw) = env_value(env, key) {
        lemma_csv_items_shape(raw);
        assert forall|i: int| 0 <= i < env_list(env, key).len() implies (#[trigger] env_list(env, key)[i]).len()
            > 0 && trim(env_list(env, key)[i]) == env_list(env, key)[i] by {
            let x = csv_items(raw)[i];
            lemma_trim_fixed(x);
        }
    }
}

/// One entry per model, in order, each under the model's own id.
pub proof fn lemma_listed_models(
    models: Seq<Seq<char>>,
    api_url: Seq<char>,
    api_key: Seq<char>,
    prefix: Seq<char>,
    provider: Seq<char>,
)
    ensures
        listed_models(models, api_url, api_key, prefix, provider).len() == models.len(),
        forall|i: int| 0 <= i < models.len() ==> #[trigger] listed_models(models, api_url, api_key, prefix, provider)[i] == (
            models[i],
            compat_config(api_url, api_key, prefix + " "@ + models[i], models[i], provider),
        ),
    decreases models.len(),
{
    if models.len() > 0 {
        let t = models.drop_last();
        lemma_listed_models(t, api_url, api_key, prefix, provider);
        assert forall|i: int| 0 <= i < models.len() implies #[trigger] listed_models(models, api_url, api_key, prefix, provider)[i] == (
            models[i],
            compat_config(api_url, api_key, prefix + " "@ + models[i], models[i], provider),
        ) by {
            if i < t.len() {
                assert(models[i] == t[i]);
            }
        }
    }
}

proof fn lemma_listed_models_ids(
    models: Seq<Seq<char>>,
    api_url: Seq<char>,
    api_key: Seq<char>,
    prefix: Seq<char>,
    provider: Seq<char>,
)
    ensures
        entry_ids(listed_models(models, api_url, api_key, prefix, provider)) == models.to_set(),
{
    let l = listed_models(models, api_url, api_key, prefix, provider);
    lemma_listed_models(models, api_url, api_key, prefix, provider);
    assert forall|id: Seq<char>| #[trigger] entry_ids(l).contains(id) <==> models.to_set().contains(id) by {
        if entry_ids(l).contains(id) {
            let i = choose|i: int| 0 <= i < l.len() && (#[trigger] l[i]).0 == id;
            assert(models[i] == id);
        }
        if models.contains(id) {
            let i = choose|i: int| 0 <= i < models.len() && models[i] == id;
            assert(l[i].0 == id);
        }
    }
    assert(entry_ids(l) =~= models.to_set());
}

proof fn lemma_entry_ids_concat(a: Seq<(Seq<char>, ModelConfigView)>, b: Seq<(Seq<char>, ModelConfigView)>)
    ensures
        entry_ids(a + b) == entry_ids(a) + entry_ids(b),
{
    assert forall|id: Seq<char>| #[trigger] entry_ids(a + b).contains(id) <==> (entry_ids(a) + entry_ids(b)).contains(id) by {
        if entry_ids(a + b).contains(id) {
            let i = choose|i: int| 0 <= i < (a + b).len() && (#[trigger] (a + b)[i]).0 == id;
            if i < a.len() {
                assert(a[i] == (a + b)[i]);
            } else {
                assert(b[i - a.len()] == (a + b)[i]);
            }
        }
        if entry_ids(a).contains(id) {
            let i = choose|i: int| 0 <= i < a.len() && (#[trigger] a[i]).0 == id;
            assert((a + b)[i] == a[i]);
        }
        if entry_ids(b).contains(id) {
            let i = choose|i: int| 0 <= i < b.len() && (#[trigger] b[i]).0 == id;
            assert((a + b)[a.len() + i] == b[i]);
        }
    }
    assert(entry_ids(a + b) =~= entry_ids(a) + entry_ids(b));
}

proof fn lemma_default_group(env: Seq<(Seq<char>, Seq<char>)>)
    ensures
        default_group(env).len() > 0 <==> default_group_set(env),
        entry_ids(default_group(env)) == default_group_ids(env),
        forall|i: int| 0 <= i < default_group(env).len() ==> well_formed_entry(
            (#[trigger] default_group(env)[i]).0,
            default_group(env)[i].1,
        ),
{
    let g = default_group(env);
    let models = env_list(env, "OPENAI_MODEL"@);
    lemma_env_value_trimmed(env, "OPENAI_API_KEY"@);
    lemma_env_value_trimmed(env, "DEFAULT_MODEL_ID"@);
    lemma_env_list_trimmed(env, "OPENAI_MODEL"@);
    if default_group_set(env) {
        let url = normalized_api_url(env_value(env, "OPENAI_BASE_URL"@)->0);
        let key = env_value(env, "OPENAI_API_KEY"@)->0;
        if models.len() == 1 {
            let id = opt_or(env_value(env, "DEFAULT_MODEL_ID"@), "DefaultModel"@);
            assert(g[0].0 == id);
            assert(entry_ids(g) =~= set![id]) by {
                assert forall|x: Seq<char>| #[trigger] entry_ids(g).contains(x) implies x == id by {
                    let i = choose|i: int| 0 <= i < g.len() && (#[trigger] g[i]).0 == x;
                }
            }
            if env_value(env, "DEFAULT_MODEL_ID"@) is None {
                reveal_strlit("DefaultModel");
                lemma_trim_fixed("DefaultModel"@);
            }
            assert(models[0].len() > 0);
        } else {
            lemma_listed_models(models, url, key, "OpenAI-Compatible"@, "openai_compat"@);
            lemma_listed_models_ids(models, url, key, "OpenAI-Compatible"@, "openai_compat"@);
            assert forall|i: int| 0 <= i < g.len() implies well_formed_entry((#[trigger] g[i]).0, g[i].1) by {
                assert(models[i].len() > 0);
            }
        }
    } else {
        assert(entry_ids(g) =~= Set::<Seq<char>>::empty());
    }
}

proof fn lemma_compat_group(env: Seq<(Seq<char>, Seq<char>)>)
    ensures
        compat_group(env).len() > 0 <==> compat_group_set(env),
        entry_ids(compat_group(env)) == compat_group_ids(env),
        forall|i: int| 0 <= i < compat_group(env).len() ==> well_formed_entry(
            (#[trigger] compat_group(env)[i]).0,
            compat_group(env)[i].1,
        ),
{
    let g = compat_group(env);
    let models = env_list(env, "OPENAI_COMPAT_MODELS"@);
    lemma_env_value_trimmed(env, "OPENAI_COMPAT_API_KEY"@);
    lemma_env_list_trimmed(env, "OPENAI_COMPAT_MODELS"@);
    if compat_group_set(env) {
        let url = normalized_api_url(env_value(env, "OPENAI_COMPAT_API_URL"@)->0);
        let key = env_value(env, "OPENAI_COMPAT_API_KEY"@)->0;
        let prefix = opt_or(env_value(env, "OPENAI_COMPAT_NAME_PREFIX"@), "OpenAI-Compatible"@);
        let provider = opt_or(env_value(env, "OPENAI_COMPAT_PROVIDER_NAME"@), "openai_compat"@);
        lemma_listed_models(models, url, key, prefix, provider);
        lemma_listed_models_ids(models, url, key, prefix, provider);
        assert forall|i: int| 0 <= i < g.len() implies well_formed_entry((#[trigger] g[i]).0, g[i].1) by {
            assert(models[i].len() > 0);
        }
    } else {
        assert(entry_ids(g) =~= Set::<Seq<char>>::empty());
    }
}

proof fn lemma_extra_entries_well_formed(env: Seq<(Seq<char>, Seq<char>)>, ids: Seq<Seq<char>>)
    requires
        forall|i: int| 0 <= i < ids.len() ==> extra_model_complete(env, #[trigger] ids[i]),
    ensures
        forall|i: int| 0 <= i < ids.len() ==> well_formed_entry(
            (#[trigger] extra_entries(env, ids)[i]).0,
            extra_entries(env, ids)[i].1,
        ),
{
    let e = extra_entries(env, ids);
    assert forall|i: int| 0 <= i < ids.len() implies well_formed_entry((#[trigger] e[i]).0, e[i].1) by {
        let id = ids[i];
        assert(extra_model_complete(env, id));
        assert(!is_ws(id[0]));
        assert(!is_ws(id[id.len() - 1]));
        lemma_trim_fixed(id);
        lemma_env_value_trimmed(env, extra_model_key(id, "_API_KEY"@));
        lemma_env_value_trimmed(env, extra_model_key(id, "_NAME"@));
    }
}

proof fn lemma_with_models_len(s: Seq<(Seq<char>, ModelConfigView)>, cands: Seq<(Seq<char>, ModelConfigView)>)
    ensures
        with_models(s, cands).len() >= s.len(),
        cands.len() > 0 ==> with_models(s, cands).len() > 0,
    decreases cands.len(),
{
    if cands.len() > 0 {
        lemma_with_models_len(s, cands.drop_last());
    }
}

proof fn lemma_table_map_empty()
    ensures
        table_map(Seq::<(Seq<char>, ModelConfigView)>::empty()).dom() == Set::<Seq<char>>::empty(),
{
    assert(table_map(Seq::<(Seq<char>, ModelConfigView)>::empty()).dom() =~= Set::<Seq<char>>::empty());
}

/// Loading the settings fails exactly when a numeric setting is invalid, when a model
/// that `EXTRA_MODEL_IDS` lists is not complete, or when neither model group is
/// configured and no extra model is listed; what loads holds at least one model.
pub proof fn lemma_loaded_config_fails(env: Seq<(Seq<char>, Seq<char>)>)
    ensures
        ({
            let ids = env_list(env, "EXTRA_MODEL_IDS"@);
            loaded_config(env) is Err <==> {
                ||| numeric_setting_invalid(env)
                ||| exists|i: int| 0 <= i < ids.len() && !extra_model_complete(env, #[trigger] ids[i])
                ||| !default_group_set(env) && !compat_group_set(env) && ids.len() == 0
            }
        }),
        loaded_config(env) matches Ok(c) ==> c.api_configs.len() > 0,
{
    let ids = env_list(env, "EXTRA_MODEL_IDS"@);
    let g = default_group(env) + compat_group(env);
    let groups = with_models(Seq::empty(), g);
    let extra = extra_models(env, ids);
    lemma_default_group(env);
    lemma_compat_group(env);
    lemma_extra_models_all_ok(env, ids);
    lemma_with_models_len(Seq::empty(), g);
    if extra.1 is None {
        lemma_with_models_len(groups, extra.0);
        assert(extra.0.len() == ids.len());
        if g.len() == 0 {
            assert(groups =~= Seq::<(Seq<char>, ModelConfigView)>::empty());
            if ids.len() == 0 {
                assert(extra.0 =~= Seq::<(Seq<char>, ModelConfigView)>::empty());
            }
        }
    } else {
        assert(!forall|i: int| 0 <= i < ids.len() ==> extra_model_complete(env, #[trigger] ids[i]));
    }
}

/// What loads holds exactly the ids of the configured `OPENAI_*` group, those of the
/// configured `OPENAI_COMPAT_*` group and those that `EXTRA_MODEL_IDS` lists.
pub proof fn lemma_loaded_config_ids(env: Seq<(Seq<char>, Seq<char>)>)
    ensures
        loaded_config(env) matches Ok(c) ==> table_map(c.api_configs).dom() == default_group_ids(env)
            + compat_group_ids(env) + env_list(env, "EXTRA_MODEL_IDS"@).to_set(),
{
    let ids = env_list(env, "EXTRA_MODEL_IDS"@);
    let g = default_group(env) + compat_group(env);
    let groups = with_models(Seq::empty(), g);
    let extra = extra_models(env, ids);
    if loaded_config(env) is Ok {
        lemma_default_group(env);
        lemma_compat_group(env);
        lemma_extra_models_all_ok(env, ids);
        lemma_extra_entries_ids(env, ids);
        lemma_entry_ids_concat(default_group(env), compat_group(env));
        lemma_table_map_empty();
        lemma_with_models_dom(Seq::empty(), g);
        lemma_with_models_dom(groups, extra.0);
        assert(table_map(groups).dom() =~= entry_ids(g));
    }
}

/// Every entry of what loads has a trimmed, non-empty id and key, the
/// OpenAI-compatible type, an upstream model, a provider and a non-empty name.
pub proof fn lemma_loaded_config_entries(env: Seq<(Seq<char>, Seq<char>)>)
    ensures
        loaded_config(env) matches Ok(c) ==> forall|i: int| 0 <= i < c.api_configs.len() ==> well_formed_entry(
            (#[trigger] c.api_configs[i]).0,
            c.api_configs[i].1,
        ),
{
    let ids = env_list(env, "EXTRA_MODEL_IDS"@);
    let a = default_group(env);
    let b = compat_group(env);
    let g = a + b;
    let groups = with_models(Seq::empty(), g);
    let extra = extra_models(env, ids);
    let p = |id: Seq<char>, c: ModelConfigView| well_formed_entry(id, c);
    if loaded_config(env) is Ok {
        lemma_default_group(env);
        lemma_compat_group(env);
        lemma_extra_models_all_ok(env, ids);
        lemma_extra_entries_well_formed(env, ids);
        assert forall|i: int| 0 <= i < g.len() implies p((#[trigger] g[i]).0, g[i].1) by {
            if i < a.len() {
                assert(g[i] == a[i]);
            } else {
                assert(g[i] == b[i - a.len()]);
            }
        }
        lemma_with_models_all(Seq::empty(), g, p);
        lemma_with_models_all(groups, extra.0, p);
    }
}

/// Each entry of the `OPENAI_*` group is served from the normalised base URL with
/// the configured key, as an OpenAI-compatible model of provider `openai_compat`.
/// A single model is served under the default model id, named after the default
/// name and the model; several are each served under their own name.
pub proof fn lemma_default_group_entries(env: Seq<(Seq<char>, Seq<char>)>)
    ensures
        ({
            let g = default_group(env);
            let models = env_list(env, "OPENAI_MODEL"@);
            let url = normalized_api_url(env_value(env, "OPENAI_BASE_URL"@)->0);
            let key = env_value(env, "OPENAI_API_KEY"@)->0;
            &&& !default_group_set(env) ==> g.len() == 0
            &&& default_group_set(env) && models.len() == 1 ==> {
                &&& g.len() == 1
                &&& g[0].0 == opt_or(env_value(env, "DEFAULT_MODEL_ID"@), "DefaultModel"@)
                &&& g[0].1.name == opt_or(env_value(env, "DEFAULT_MODEL_NAME"@), "Default Model"@) + " ("@
                    + models[0] + ")"@
                &&& g[0].1.upstream_model == Some(models[0])
            }
            &&& default_group_set(env) && models.len() > 1 ==> {
                &&& g.len() == models.len()
                &&& forall|i: int| 0 <= i < g.len() ==> {
                    &&& (#[trigger] g[i]).0 == models[i]
                    &&& g[i].1.name == "OpenAI-Compatible"@ + " "@ + models[i]
                    &&& g[i].1.upstream_model == Some(models[i])
                }
            }
            &&& forall|i: int| 0 <= i < g.len() ==> {
                &&& (#[trigger] g[i]).1.api_url == url
                &&& g[i].1.api_key == key
                &&& g[i].1.model_type == "openai_compat"@
                &&& g[i].1.provider == Some("openai_compat"@)
            }
        }),
{
    let models = env_list(env, "OPENAI_MODEL"@);
    if default_group_set(env) && models.len() > 1 {
        let url = normalized_api_url(env_value(env, "OPENAI_BASE_URL"@)->0);
        let key = env_value(env, "OPENAI_API_KEY"@)->0;
        lemma_listed_models(models, url, key, "OpenAI-Compatible"@, "openai_compat"@);
    }
}

/// Each entry of the `OPENAI_COMPAT_*` group is served under its own model name, from
/// the normalised URL with the configured key, named with the configured prefix
/// (`OpenAI-Compatible` by default) and of the configured provider (`openai_compat`
/// by default).
pub proof fn lemma_compat_group_entries(env: Seq<(Seq<char>, Seq<char>)>)
    ensures
        ({
            let g = compat_group(env);
            let models = env_list(env, "OPENAI_COMPAT_MODELS"@);
            let url = normalized_api_url(env_value(env, "OPENAI_COMPAT_API_URL"@)->0);
            let key = env_value(env, "OPENAI_COMPAT_API_KEY"@)->0;
            let prefix = opt_or(env_value(env, "OPENAI_COMPAT_NAME_PREFIX"@), "OpenAI-Compatible"@);
            let provider = opt_or(env_value(env, "OPENAI_COMPAT_PROVIDER_NAME"@), "openai_compat"@);
            &&& !compat_group_set(env) ==> g.len() == 0
            &&& compat_group_set(env) ==> g.len() == models.len()
            &&& forall|i: int| 0 <= i < g.len() ==> {
                &&& (#[trigger] g[i]).0 == models[i]
                &&& g[i].1.api_url == url
                &&& g[i].1.api_key == key
                &&& g[i].1.model_type == "openai_compat"@
                &&& g[i].1.name == prefix + " "@ + models[i]
                &&& g[i].1.upstream_model == Some(models[i])
                &&& g[i].1.provider == Some(provider)
            }
        }),
{
    let models = env_list(env, "OPENAI_COMPAT_MODELS"@);
    if compat_group_set(env) {
        let url = normalized_api_url(env_value(env, "OPENAI_COMPAT_API_URL"@)->0);
        let key = env_value(env, "OPENAI_COMPAT_API_KEY"@)->0;
        let prefix = opt_or(env_value(env, "OPENAI_COMPAT_NAME_PREFIX"@), "OpenAI-Compatible"@);
        let provider = opt_or(env_value(env, "OPENAI_COMPAT_PROVIDER_NAME"@), "openai_compat"@);
        lemma_listed_models(models, url, key, prefix, provider);
    }
}

/// A complete extra model is served under its own id from its normalised base URL,
/// with its key and upstream model, named by its `_NAME` variable (else
/// `OpenAI-Compatible <id>`) and of the provider its `_PROVIDER` variable names
/// (else `openai_compat`).
pub proof fn lemma_extra_model_entry(env: Seq<(Seq<char>, Seq<char>)>, id: Seq<char>)
    requires
        extra_model_complete(env, id),
    ensures
        extra_model(env, id) matches Ok(e) && {
            &&& e.0 == id
            &&& e.1.api_url == normalized_api_url(env_value(env, extra_model_key(id, "_BASE_URL"@))->0)
            &&& e.1.api_key == env_value(env, extra_model_key(id, "_API_KEY"@))->0
            &&& e.1.model_type == "openai_compat"@
            &&& e.1.name == opt_or(env_value(env, extra_model_key(id, "_NAME"@)), "OpenAI-Compatible"@ + " "@ + id)
            &&& e.1.upstream_model == Some(env_value(env, extra_model_key(id, "_MODEL"@))->0)
            &&& e.1.provider == Some(opt_or(env_value(env, extra_model_key(id, "_PROVIDER"@)), "openai_compat"@))
        },
{
}

/// What loads serves every id of the `OPENAI_*` group with that group's own entry:
/// from the normalised `OPENAI_BASE_URL`, with `OPENAI_API_KEY`.
pub proof fn lemma_loaded_config_default_entries(env: Seq<(Seq<char>, Seq<char>)>)
    ensures
        loaded_config(env) matches Ok(c) ==> {
            &&& forall|i: int| 0 <= i < default_group(env).len() ==> table_get(
                c.api_configs,
                (#[trigger] default_group(env)[i]).0,
            ) == Some(default_group(env)[i].1)
            &&& forall|id: Seq<char>| #[trigger] default_group_ids(env).contains(id) ==> {
                &&& table_map(c.api_configs).contains_key(id)
                &&& table_map(c.api_configs)[id].api_url == normalized_api_url(env_value(env, "OPENAI_BASE_URL"@)->0)
                &&& table_map(c.api_configs)[id].api_key == env_value(env, "OPENAI_API_KEY"@)->0
            }
        },
{
    let ids = env_list(env, "EXTRA_MODEL_IDS"@);
    let a = default_group(env);
    let b = compat_group(env);
    let g = a + b;
    let groups = with_models(Seq::empty(), g);
    let extra = extra_models(env, ids);
    if loaded_config(env) is Ok {
        let table = with_models(groups, extra.0);
        lemma_default_group_entries(env);
        lemma_default_group(env);
        assert(g.take(a.len() as int) =~= a);
        assert forall|i: int| 0 <= i < a.len() implies table_get(table, (#[trigger] a[i]).0) == Some(a[i].1) by {
            let id = a[i].0;
            lemma_table_get_none(a, id);
            lemma_table_get_some(a, id);
            let j = choose|j: int| 0 <= j < a.len() && (#[trigger] a[j]).0 == id && table_get(a, id) == Some(a[j].1);
            assert(a[j].1 == a[i].1);
            lemma_table_get_prefix(g, id, a.len() as int);
            lemma_table_get_none(Seq::<(Seq<char>, ModelConfigView)>::empty(), id);
            lemma_with_models_new(Seq::empty(), g, id);
            lemma_with_models_keeps(groups, extra.0, id);
        }
        assert forall|id: Seq<char>| #[trigger] default_group_ids(env).contains(id) implies {
            &&& table_map(table).contains_key(id)
            &&& table_map(table)[id].api_url == normalized_api_url(env_value(env, "OPENAI_BASE_URL"@)->0)
            &&& table_map(table)[id].api_key == env_value(env, "OPENAI_API_KEY"@)->0
        } by {
            assert(entry_ids(a).contains(id));
            let i = choose|i: int| 0 <= i < a.len() && (#[trigger] a[i]).0 == id;
            assert(table_get(table, a[i].0) == Some(a[i].1));
        }
    }
}

} // verus!
