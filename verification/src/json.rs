use vstd::prelude::*;

use crate::errors::{AppError, AppErrorView};

verus! {

/// A JSON document. A number is held as its JSON text.
#[derive(Debug, PartialEq, Eq)]
pub enum JsonValue {
    Null,
    Bool(bool),
    Number(String),
    Str(String),
    Array(Vec<JsonValue>),
    Object(Vec<(String, JsonValue)>),
}

/// A JSON document as a mathematical value.
pub enum JsonView {
    Null,
    Bool(bool),
    Number(Seq<char>),
    Str(Seq<char>),
    Array(Seq<JsonView>),
    Object(Seq<(Seq<char>, JsonView)>),
}

pub open spec fn json_view(j: JsonValue) -> JsonView
    decreases j, 0int,
{
    match j {
        JsonValue::Null => JsonView::Null,
        JsonValue::Bool(b) => JsonView::Bool(b),
        JsonValue::Number(n) => JsonView::Number(n@),
        JsonValue::Str(s) => JsonView::Str(s@),
        JsonValue::Array(v) => JsonView::Array(json_views(v@)),
        JsonValue::Object(f) => JsonView::Object(field_views(f@)),
    }
}

pub open spec fn json_views(s: Seq<JsonValue>) -> Seq<JsonView>
    decreases s, 1int,
{
    if s.len() == 0 {
        Seq::empty()
    } else {
        json_views(s.drop_last()).push(json_view(s.last()))
    }
}

pub open spec fn field_views(s: Seq<(String, JsonValue)>) -> Seq<(Seq<char>, JsonView)>
    decreases s, 1int,
{
    if s.len() == 0 {
        Seq::empty()
    } else {
        field_views(s.drop_last()).push((s.last().0@, json_view(s.last().1)))
    }
}


impl JsonValue {
    /// A copy of this document.
    pub fn duplicate(&self) -> (r: JsonValue)
        ensures
            json_view(r) == json_view(*self),
        decreases self, 0int,
    {
        match self {
            JsonValue::Null => JsonValue::Null,
            JsonValue::Bool(b) => JsonValue::Bool(*b),
            JsonValue::Number(n) => JsonValue::Number(n.clone()),
            JsonValue::Str(s) => JsonValue::Str(s.clone()),
            JsonValue::Array(v) => JsonValue::Array(duplicate_all(v)),
            JsonValue::Object(f) => JsonValue::Object(duplicate_fields(f)),
        }
    }
}

fn duplicate_all(v: &Vec<JsonValue>) -> (r: Vec<JsonValue>)
    ensures
        json_views(r@) == json_views(v@),
    decreases v, 1int,
{
    let mut r: Vec<JsonValue> = Vec::new();
    let n = v.len();
    let mut i: usize = 0;
    assert(v@.take(0) =~= Seq::<JsonValue>::empty());
    while i < n
        invariant
            i <= n,
            n == v.len(),
            json_views(r@) == json_views(v@.take(i as int)),
        decreases n - i,
    {
        proof {
            assert(decreases_to!(v => v@));
            assert(decreases_to!(v@ => v@[i as int]));
        }
        let x = v[i].duplicate();
        let ghost before = r@;
        r.push(x);
        proof {
            assert(r@.drop_last() =~= before);
            let p = v@.take(i + 1);
            assert(p.drop_last() =~= v@.take(i as int));
        }
        i = i + 1;
    }
    assert(v@.take(n as int) =~= v@);
    r
}

fn duplicate_fields(f: &Vec<(String, JsonValue)>) -> (r: Vec<(String, JsonValue)>)
    ensures
        field_views(r@) == field_views(f@),
    decreases f, 1int,
{
    let mut r: Vec<(String, JsonValue)> = Vec::new();
    let n = f.len();
    let mut i: usize = 0;
    assert(f@.take(0) =~= Seq::<(String, JsonValue)>::empty());
    while i < n
        invariant
            i <= n,
            n == f.len(),
            field_views(r@) == field_views(f@.take(i as int)),
        decreases n - i,
    {
        proof {
            assert(decreases_to!(f => f@));
            assert(decreases_to!(f@ => f@[i as int]));
            assert(decreases_to!(f@[i as int] => f@[i as int].1));
        }
        let x = f[i].1.duplicate();
        let ghost before = r@;
        r.push((f[i].0.clone(), x));
        proof {
            assert(r@.drop_last() =~= before);
            let p = f@.take(i + 1);
            assert(p.drop_last() =~= f@.take(i as int));
        }
        i = i + 1;
    }
    assert(f@.take(n as int) =~= f@);
    r
}


/// The value of the first field named `key`.
pub open spec fn fields_get(s: Seq<(Seq<char>, JsonView)>, key: Seq<char>) -> Option<JsonView>
    decreases s.len(),
{
    if s.len() == 0 {
        None
    } else {
        match fields_get(s.drop_last(), key) {
            Some(v) => Some(v),
            None => if s.last().0 == key {
                Some(s.last().1)
            } else {
                None
            },
        }
    }
}

/// An object's fields as a map from name to value.
pub open spec fn object_map(s: Seq<(Seq<char>, JsonView)>) -> Map<Seq<char>, JsonView> {
    Map::new(|k: Seq<char>| fields_get(s, k) is Some, |k: Seq<char>| fields_get(s, k)->0)
}

/// The names of an object's fields, in order.
pub open spec fn field_names(s: Seq<(Seq<char>, JsonView)>) -> Seq<Seq<char>> {
    s.map_values(|p: (Seq<char>, JsonView)| p.0)
}

/// No field name of an object occurs twice.
pub open spec fn names_distinct(s: Seq<(Seq<char>, JsonView)>) -> bool {
    field_names(s).no_duplicates()
}

proof fn lemma_fields_get_none(s: Seq<(Seq<char>, JsonView)>, key: Seq<char>)
    ensures
        fields_get(s, key) is None <==> !field_names(s).contains(key),
    decreases s.len(),
{
    if s.len() > 0 {
        let t = s.drop_last();
        lemma_fields_get_none(t, key);
        assert(field_names(s) =~= field_names(t).push(s.last().0));
        assert(field_names(s)[s.len() - 1] == s.last().0);
        if field_names(t).contains(key) {
            let i = choose|i: int| 0 <= i < field_names(t).len() && field_names(t)[i] == key;
            assert(field_names(s)[i] == key);
        }
        if field_names(s).contains(key) {
            let i = choose|i: int| 0 <= i < field_names(s).len() && field_names(s)[i] == key;
            if i < t.len() {
                assert(field_names(t)[i] == key);
            }
        }
    } else {
        assert(field_names(s) =~= Seq::<Seq<char>>::empty());
    }
}

/// The field `key` of a document, where it is an object that has one.
pub open spec fn member(j: JsonView, key: Seq<char>) -> Option<JsonView> {
    match j {
        JsonView::Object(f) => fields_get(f, key),
        _ => None,
    }
}

pub proof fn lemma_field_views(s: Seq<(String, JsonValue)>)
    ensures
        field_views(s).len() == s.len(),
        forall|k: int| 0 <= k < s.len() ==> #[trigger] field_views(s)[k] == (s[k].0@, json_view(s[k].1)),
    decreases s.len(),
{
    if s.len() > 0 {
        lemma_field_views(s.drop_last());
    }
}

proof fn lemma_field_views_take(s: Seq<(String, JsonValue)>, i: int)
    requires
        0 <= i <= s.len(),
    ensures
        field_views(s.take(i)) == field_views(s).take(i),
{
    lemma_field_views(s);
    lemma_field_views(s.take(i));
    assert(field_views(s.take(i)) =~= field_views(s).take(i));
}

proof fn lemma_fields_get_prefix(s: Seq<(Seq<char>, JsonView)>, key: Seq<char>, k: int)
    requires
        0 <= k <= s.len(),
        fields_get(s.take(k), key) is Some,
    ensures
        fields_get(s, key) == fields_get(s.take(k), key),
    decreases s.len() - k,
{
    if k < s.len() {
        let t = s.drop_last();
        assert(t.take(k) =~= s.take(k));
        lemma_fields_get_prefix(t, key, k);
    } else {
        assert(s.take(k) =~= s);
    }
}

proof fn lemma_fields_get_push(s: Seq<(Seq<char>, JsonView)>, x: (Seq<char>, JsonView), key: Seq<char>)
    ensures
        fields_get(s.push(x), key) == match fields_get(s, key) {
            Some(v) => Some(v),
            None => if x.0 == key {
                Some(x.1)
            } else {
                None
            },
        },
{
    assert(s.push(x).drop_last() =~= s);
}

proof fn lemma_field_views_push(s: Seq<(String, JsonValue)>, x: (String, JsonValue))
    ensures
        field_views(s.push(x)) == field_views(s).push((x.0@, json_view(x.1))),
{
    assert(s.push(x).drop_last() =~= s);
}

/// Finds the first field named `key`.
fn find_field<'a>(f: &'a Vec<(String, JsonValue)>, key: &str) -> (r: Option<&'a JsonValue>)
    ensures
        match r {
            Some(v) => fields_get(field_views(f@), key@) == Some(json_view(*v)),
            None => fields_get(field_views(f@), key@) is None,
        },
{
    let wanted = key.to_owned();
    let n = f.len();
    let mut i: usize = 0;
    proof {
        lemma_field_views(f@);
        lemma_field_views_take(f@, 0);
    }
    while i < n
        invariant
            i <= n,
            n == f.len(),
            wanted@ == key@,
            field_views(f@).len() == f@.len(),
            forall|k: int| 0 <= k < f@.len() ==> #[trigger] field_views(f@)[k] == (f@[k].0@, json_view(f@[k].1)),
            fields_get(field_views(f@).take(i as int), key@) is None,
        decreases n - i,
    {
        let ghost fv = field_views(f@);
        proof {
            let p = fv.take(i + 1);
            assert(p.drop_last() =~= fv.take(i as int));
            assert(p.last() == fv[i as int]);
        }
        if f[i].0 == wanted {
            proof {
                lemma_fields_get_prefix(fv, key@, i + 1);
            }
            return Some(&f[i].1);
        }
        i = i + 1;
    }
    assert(field_views(f@).take(n as int) =~= field_views(f@));
    None
}

impl JsonValue {
    /// The field `key`, where this is an object that has one.
    pub fn get(&self, key: &str) -> (r: Option<&JsonValue>)
        ensures
            match r {
                Some(v) => member(json_view(*self), key@) == Some(json_view(*v)),
                None => member(json_view(*self), key@) is None,
            },
    {
        match self {
            JsonValue::Object(f) => find_field(f, key),
            _ => None,
        }
    }

    /// The string, where this is one.
    pub fn as_str(&self) -> (r: Option<&String>)
        ensures
            match json_view(*self) {
                JsonView::Str(s) => r matches Some(x) && x@ == s,
                _ => r is None,
            },
    {
        match self {
            JsonValue::Str(s) => Some(s),
            _ => None,
        }
    }

    /// The boolean, where this is one.
    pub fn as_bool(&self) -> (r: Option<bool>)
        ensures
            match json_view(*self) {
                JsonView::Bool(b) => r == Some(b),
                _ => r is None,
            },
    {
        match self {
            JsonValue::Bool(b) => Some(*b),
            _ => None,
        }
    }

    pub fn is_object(&self) -> (r: bool)
        ensures
            r == (json_view(*self) is Object),
    {
        match self {
            JsonValue::Object(_) => true,
            _ => false,
        }
    }
}

/// What the chat completions endpoint demands of a request body: an object with the
/// fields `model` and `messages`.
pub open spec fn request_check(body: JsonView) -> Result<(), AppErrorView> {
    if !(body is Object) {
        Err(AppErrorView::InvalidRequest("Invalid request body"@))
    } else if member(body, "model"@) is None {
        Err(AppErrorView::InvalidRequest("Missing required field: 'model'"@))
    } else if member(body, "messages"@) is None {
        Err(AppErrorView::InvalidRequest("Missing required field: 'messages'"@))
    } else {
        Ok(())
    }
}

/// Checks that a chat completion request is an object with `model` and `messages`.
pub fn validate_chat_completion_request(request_body: &JsonValue) -> (r: Result<(), AppError>)
    ensures
        match request_check(json_view(*request_body)) {
            Ok(()) => r is Ok,
            Err(e) => r matches Err(x) && x@ == e,
        },
{
    if !request_body.is_object() {
        return Err(AppError::InvalidRequest("Invalid request body".to_owned()));
    }
    if request_body.get("model").is_none() {
        return Err(AppError::InvalidRequest("Missing required field: 'model'".to_owned()));
    }
    if request_body.get("messages").is_none() {
        return Err(AppError::InvalidRequest("Missing required field: 'messages'".to_owned()));
    }
    Ok(())
}

/// The request body with its `model` field set to `model`, every other field kept.
pub fn with_model_override(request_body: &JsonValue, model: &str) -> (r: Result<JsonValue, AppError>)
    ensures
        match json_view(*request_body) {
            JsonView::Object(f) => r matches Ok(b) && json_view(b) matches JsonView::Object(g)
                && object_map(g) == object_map(f).insert("model"@, JsonView::Str(model@))
                && field_names(g) == (if fields_get(f, "model"@) is Some {
                    field_names(f)
                } else {
                    field_names(f).push("model"@)
                })
                && (names_distinct(f) ==> names_distinct(g)),
            _ => r matches Err(e) && e@ == AppErrorView::InvalidRequest("Invalid request body"@),
        },
{
    let f = match request_body {
        JsonValue::Object(f) => f,
        _ => return Err(AppError::InvalidRequest("Invalid request body".to_owned())),
    };
    let key = "model".to_owned();
    let ghost fv = field_views(f@);
    let ghost new_value = JsonView::Str(model@);
    let mut out: Vec<(String, JsonValue)> = Vec::new();
    let mut found = false;
    let n = f.len();
    let mut i: usize = 0;
    proof {
        lemma_field_views(f@);
        assert(fv.take(0) =~= Seq::<(Seq<char>, JsonView)>::empty());
        assert(field_views(out@) =~= Seq::<(Seq<char>, JsonView)>::empty());
    }
    while i < n
        invariant
            i <= n,
            n == f.len(),
            key@ == "model"@,
            new_value == JsonView::Str(model@),
            fv == field_views(f@),
            fv.len() == f@.len(),
            forall|k: int| 0 <= k < f@.len() ==> #[trigger] fv[k] == (f@[k].0@, json_view(f@[k].1)),
            found == (fields_get(fv.take(i as int), key@) is Some),
            field_names(field_views(out@)) == field_names(fv.take(i as int)),
            forall|k: Seq<char>| #[trigger]
                fields_get(field_views(out@), k) == if k == key@ && found {
                    Some(new_value)
                } else {
                    fields_get(fv.take(i as int), k)
                },
        decreases n - i,
    {
        let ghost before = out@;
        let is_model = f[i].0 == key;
        if is_model && !found {
            let name = key.clone();
            let value = JsonValue::Str(model.to_owned());
            assert(json_view(value) == new_value);
            out.push((name, value));
            assert((out@.last().0@, json_view(out@.last().1)) == (key@, new_value));
        } else {
            let name = f[i].0.clone();
            let value = f[i].1.duplicate();
            out.push((name, value));
            assert((out@.last().0@, json_view(out@.last().1)) == fv[i as int]);
        }
        let ghost was_found = found;
        if is_model {
            found = true;
        }
        proof {
            let p = fv.take(i + 1);
            assert(p.drop_last() =~= fv.take(i as int));
            assert(p.last() == fv[i as int]);
            assert(out@ == before.push(out@.last()));
            lemma_field_views_push(before, out@.last());
            let x = (out@.last().0@, json_view(out@.last().1));
            assert(x.0 == fv[i as int].0);
            assert(field_names(field_views(out@)) =~= field_names(field_views(before)).push(x.0));
            assert(field_names(p) =~= field_names(fv.take(i as int)).push(fv[i as int].0));
            assert forall|k: Seq<char>| #[trigger]
                fields_get(field_views(out@), k) == if k == key@ && found {
                    Some(new_value)
                } else {
                    fields_get(p, k)
                } by {
                lemma_fields_get_push(field_views(before), x, k);
                lemma_fields_get_push(fv.take(i as int), fv[i as int], k);
            }
        }
        i = i + 1;
    }
    if !found {
        let ghost before = out@;
        out.push((key, JsonValue::Str(model.to_owned())));
        proof {
            assert(out@ == before.push(out@.last()));
            lemma_field_views_push(before, out@.last());
            let x = (out@.last().0@, json_view(out@.last().1));
            assert(field_names(field_views(out@)) =~= field_names(field_views(before)).push(x.0));
            assert forall|k: Seq<char>| #[trigger]
                fields_get(field_views(out@), k) == if k == "model"@ {
                    Some(new_value)
                } else {
                    fields_get(fv.take(n as int), k)
                } by {
                lemma_fields_get_push(field_views(before), x, k);
            }
        }
    }
    proof {
        assert(fv.take(n as int) =~= fv);
        let g = field_views(out@);
        assert forall|k: Seq<char>| #[trigger] fields_get(g, k) == if k == "model"@ {
            Some(new_value)
        } else {
            fields_get(fv, k)
        } by {}
        assert(object_map(g) =~= object_map(fv).insert("model"@, new_value));
        lemma_fields_get_none(fv, "model"@);
        if names_distinct(fv) && !found {
            let names = field_names(fv);
            assert(field_names(g) == names.push("model"@));
            assert forall|a: int, b: int| 0 <= a < b < field_names(g).len() implies field_names(g)[a]
                != field_names(g)[b] by {
                if b == names.len() {
                    assert(field_names(g)[a] == names[a]);
                } else {
                    assert(field_names(g)[a] == names[a]);
                    assert(field_names(g)[b] == names[b]);
                }
            }
        }
    }
    Ok(JsonValue::Object(out))
}

} // verus!
