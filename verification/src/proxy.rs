use vstd::prelude::*;
use vstd::string::StringExecFns;

use crate::config::{opt_or, table_get, ModelConfig, ModelConfigView, ModelTable};
use crate::errors::{AppError, AppErrorView};
use crate::json::{fields_get, json_view, member, object_map, with_model_override, JsonValue, JsonView};
use crate::listing::{join, join_strings, sorted_ids, sorted_model_ids};

verus! {

/// What to send upstream for one request: where, what body, and whether to stream
/// the answer back.
#[derive(Debug)]
pub struct ProxyPlan {
    pub config: ModelConfig,
    pub body: JsonValue,
    pub stream: bool,
}

pub open spec fn missing_model_message() -> Seq<char> {
    "请求缺少 model 字段"@
}

pub open spec fn unsupported_model_message(model: Seq<char>, ids: Seq<Seq<char>>) -> Seq<char> {
    "不支持的模型: "@ + model + "。支持的模型: "@ + join(ids, ", "@)
}

/// The model that a request names, where its `model` field is a string.
pub open spec fn requested_model(body: JsonView) -> Option<Seq<char>> {
    match member(body, "model"@) {
        Some(JsonView::Str(m)) => Some(m),
        _ => None,
    }
}

/// Whether a request asks for a streamed answer: its `stream` field is `true`.
pub open spec fn wants_stream(body: JsonView) -> bool {
    member(body, "stream"@) == Some(JsonView::Bool(true))
}

/// The model name sent upstream: the configured upstream model, else the requested one.
pub open spec fn upstream_model_name(c: ModelConfigView, model: Seq<char>) -> Seq<char> {
    opt_or(c.upstream_model, model)
}

/// `after` is the object `before` with its `model` field set to `model`.
pub open spec fn model_set(before: JsonView, after: JsonView, model: Seq<char>) -> bool {
    match (before, after) {
        (JsonView::Object(f), JsonView::Object(g)) => object_map(g) == object_map(f).insert("model"@, JsonView::Str(model)),
        _ => false,
    }
}

/// A body with its `model` field set holds that model in `model` and, unchanged,
/// every other field of the body it came from.
pub proof fn lemma_model_set_member(before: JsonView, after: JsonView, model: Seq<char>)
    requires
        model_set(before, after, model),
    ensures
        member(after, "model"@) == Some(JsonView::Str(model)),
        forall|k: Seq<char>| k != "model"@ ==> #[trigger] member(after, k) == member(before, k),
{
    if let (JsonView::Object(f), JsonView::Object(g)) = (before, after) {
        assert(object_map(g).contains_key("model"@));
        assert(object_map(g)["model"@] == JsonView::Str(model));
        assert forall|k: Seq<char>| k != "model"@ implies #[trigger] member(after, k) == member(before, k) by {
            assert(object_map(g).contains_key(k) == object_map(f).contains_key(k));
            if object_map(f).contains_key(k) {
                assert(object_map(g)[k] == object_map(f)[k]);
            }
        }
    }
}

/// A request for a configured model goes upstream under the upstream model that the
/// configuration names, whatever its provider, and under the requested id only where
/// it names none; every other field of the body goes unchanged.
pub proof fn lemma_planned_body(
    t: Seq<(Seq<char>, ModelConfigView)>,
    body: JsonView,
    sent: JsonView,
)
    requires
        requested_model(body) is Some,
        table_get(t, requested_model(body)->0) is Some,
        model_set(
            body,
            sent,
            upstream_model_name(table_get(t, requested_model(body)->0)->0, requested_model(body)->0),
        ),
    ensures
        ({
            let m = requested_model(body)->0;
            let c = table_get(t, m)->0;
            &&& c.upstream_model matches Some(u) ==> member(sent, "model"@) == Some(JsonView::Str(u))
            &&& c.upstream_model is None ==> member(sent, "model"@) == Some(JsonView::Str(m))
            &&& forall|k: Seq<char>| k != "model"@ ==> #[trigger] member(sent, k) == member(body, k)
        }),
{
    let m = requested_model(body)->0;
    let c = table_get(t, m)->0;
    lemma_model_set_member(body, sent, upstream_model_name(c, m));
}

/// Decides how to forward a request: the requested model must be a string that names
/// a configured model; the body goes upstream with `model` set to the upstream model
/// name and every other field kept.
pub fn plan_proxy(api_configs: &ModelTable, request_body: &JsonValue) -> (r: Result<ProxyPlan, AppError>)
    ensures
        match requested_model(json_view(*request_body)) {
            None => r matches Err(e) && e@ == AppErrorView::InvalidRequest(missing_model_message()),
            Some(m) => match table_get(api_configs@, m) {
                None => r matches Err(e) && e@ == AppErrorView::InvalidRequest(
                    unsupported_model_message(m, sorted_ids(api_configs@)),
                ),
                Some(c) => r matches Ok(p) && (p.config@ == c && p.stream == wants_stream(json_view(*request_body))
                    && model_set(json_view(*request_body), json_view(p.body), upstream_model_name(c, m))
                    && member(json_view(p.body), "model"@) == Some(JsonView::Str(
                        match c.upstream_model {
                            Some(u) => u,
                            None => m,
                        },
                    ))),
            },
        },
        !(member(json_view(*request_body), "model"@) matches Some(JsonView::Str(_))) ==> (r matches Err(e)
            && e@ == AppErrorView::InvalidRequest("请求缺少 model 字段"@)),
        member(json_view(*request_body), "model"@) matches Some(JsonView::Str(m)) ==> (r is Ok <==> table_get(
            api_configs@,
            m,
        ) is Some),
        r matches Ok(p) ==> (p.stream <==> member(json_view(*request_body), "stream"@) == Some(
            JsonView::Bool(true),
        )),
{
    let model = match request_body.get("model") {
        Some(v) => match v.as_str() {
            Some(m) => m,
            None => return Err(AppError::InvalidRequest("请求缺少 model 字段".to_owned())),
        },
        None => return Err(AppError::InvalidRequest("请求缺少 model 字段".to_owned())),
    };
    let config = match api_configs.get(model.as_str()) {
        Some(c) => c.duplicate(),
        None => {
            let ids = sorted_model_ids(api_configs);
            let mut message = "不支持的模型: ".to_owned();
            message.append(model.as_str());
            message.append("。支持的模型: ");
            let listed = join_strings(&ids, ", ");
            message.append(listed.as_str());
            return Err(AppError::InvalidRequest(message));
        },
    };
    let stream = match request_body.get("stream") {
        Some(v) => match v.as_bool() {
            Some(b) => b,
            None => false,
        },
        None => false,
    };
    let upstream_model = match &config.upstream_model {
        Some(u) => u.clone(),
        None => model.clone(),
    };
    let body = with_model_override(request_body, upstream_model.as_str())?;
    proof {
        lemma_model_set_member(json_view(*request_body), json_view(body), upstream_model@);
    }
    Ok(ProxyPlan { config, body, stream })
}

/// The upstream endpoint of a model.
pub fn upstream_endpoint(config: &ModelConfig) -> (r: String)
    ensures
        r@ == config.api_url@ + "/chat/completions"@,
{
    config.api_url.clone().concat("/chat/completions")
}

/// The `Authorization` header sent upstream.
pub fn authorization_header(config: &ModelConfig) -> (r: String)
    ensures
        r@ == "Bearer "@ + config.api_key@,
{
    "Bearer ".to_owned().concat(config.api_key.as_str())
}

/// Whether an upstream answer succeeded: its status is in the 2xx range.
pub fn is_success_status(status: u16) -> (r: bool)
    ensures
        r == (200 <= status && status <= 299),
{
    200 <= status && status <= 299
}

/// The error that an unsuccessful upstream answer gives: its status, or 500 where
/// that is not a valid HTTP status (100 to 999), and its body text.
pub fn upstream_error(status: u16, body_text: String) -> (r: AppError)
    ensures
        r@ == AppErrorView::UpstreamApi(
            if 100 <= status && status <= 999 {
                status
            } else {
                500
            },
            body_text@,
        ),
{
    let code = if 100 <= status && status <= 999 {
        status
    } else {
        500
    };
    AppError::UpstreamApi(code, body_text)
}

} // verus!
