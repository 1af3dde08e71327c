use vstd::prelude::*;
use vstd::string::StringExecFns;

use crate::config::{lemma_table_get_none, opt_or, table_get, ModelConfig, ModelConfigView, ModelTable};
use crate::text::{chars_of, views};

verus! {

/// `a` comes before `b` in the order of `String`: character by character, a proper
/// prefix first.
pub open spec fn lex_lt(a: Seq<char>, b: Seq<char>) -> bool
    decreases a.len(),
{
    if a.len() == 0 {
        b.len() > 0
    } else if b.len() == 0 {
        false
    } else if a[0] != b[0] {
        a[0] < b[0]
    } else {
        lex_lt(a.drop_first(), b.drop_first())
    }
}

pub proof fn lemma_lex_irreflexive(a: Seq<char>)
    ensures
        !lex_lt(a, a),
    decreases a.len(),
{
    if a.len() > 0 {
        lemma_lex_irreflexive(a.drop_first());
    }
}

pub proof fn lemma_lex_transitive(a: Seq<char>, b: Seq<char>, c: Seq<char>)
    requires
        lex_lt(a, b),
        lex_lt(b, c),
    ensures
        lex_lt(a, c),
    decreases a.len(),
{
    if a.len() > 0 && b.len() > 0 && c.len() > 0 {
        if a[0] == b[0] && b[0] == c[0] {
            lemma_lex_transitive(a.drop_first(), b.drop_first(), c.drop_first());
        }
    }
}

pub proof fn lemma_lex_total(a: Seq<char>, b: Seq<char>)
    requires
        a != b,
    ensures
        lex_lt(a, b) || lex_lt(b, a),
    decreases a.len(),
{
    if a.len() == 0 {
        assert(b.len() > 0) by {
            if b.len() == 0 {
                assert(a =~= b);
            }
        }
    } else if b.len() > 0 && a[0] == b[0] {
        if a.drop_first() == b.drop_first() {
            assert(a.drop_first().len() == b.drop_first().len());
            assert(a.len() == b.len());
            assert(a =~= b) by {
                assert forall|k: int| 0 <= k < a.len() implies a[k] == b[k] by {
                    if k > 0 {
                        assert(a[k] == a.drop_first()[k - 1]);
                        assert(b[k] == b.drop_first()[k - 1]);
                    }
                }
            }
        }
        lemma_lex_total(a.drop_first(), b.drop_first());
    }
}


proof fn lemma_lex_skip(a: Seq<char>, b: Seq<char>, i: int)
    requires
        0 <= i <= a.len(),
        i <= b.len(),
        a.take(i) == b.take(i),
    ensures
        lex_lt(a, b) == lex_lt(a.skip(i), b.skip(i)),
    decreases i,
{
    if i > 0 {
        assert(a[0] == a.take(i)[0]);
        assert(b[0] == b.take(i)[0]);
        let a1 = a.drop_first();
        let b1 = b.drop_first();
        assert(a1.take(i - 1) =~= a.take(i).drop_first());
        assert(b1.take(i - 1) =~= b.take(i).drop_first());
        lemma_lex_skip(a1, b1, i - 1);
        assert(a1.skip(i - 1) =~= a.skip(i));
        assert(b1.skip(i - 1) =~= b.skip(i));
    } else {
        assert(a.skip(0) =~= a);
        assert(b.skip(0) =~= b);
    }
}

/// What decides the order of two strings that agree on their first `i` characters:
/// the one that ends there comes first when the other goes on, and otherwise the
/// smaller character at position `i` comes first.
pub proof fn lemma_lex_first_difference(a: Seq<char>, b: Seq<char>, i: int)
    requires
        0 <= i <= a.len(),
        i <= b.len(),
        a.take(i) == b.take(i),
    ensures
        i == a.len() && i < b.len() ==> lex_lt(a, b),
        i == a.len() && i == b.len() ==> !lex_lt(a, b),
        i < a.len() && i < b.len() && a[i] < b[i] ==> lex_lt(a, b) && !lex_lt(b, a),
{
    lemma_lex_skip(a, b, i);
    lemma_lex_skip(b, a, i);
    if i < a.len() && i < b.len() {
        assert(a.skip(i)[0] == a[i]);
        assert(b.skip(i)[0] == b[i]);
    }
}

/// Whether `a` sorts before `b`, as `String`s compare.
pub fn str_less(a: &str, b: &str) -> (r: bool)
    ensures
        r == lex_lt(a@, b@),
{
    let va = chars_of(a);
    let vb = chars_of(b);
    let na = va.len();
    let nb = vb.len();
    let mut i: usize = 0;
    while i < na && i < nb && va[i] == vb[i]
        invariant
            i <= na,
            i <= nb,
            na == va.len(),
            nb == vb.len(),
            va@.take(i as int) == vb@.take(i as int),
        decreases na - i,
    {
        proof {
            assert(va@.take(i + 1) =~= va@.take(i as int).push(va@[i as int]));
            assert(vb@.take(i + 1) =~= vb@.take(i as int).push(vb@[i as int]));
        }
        i = i + 1;
    }
    proof {
        lemma_lex_skip(va@, vb@, i as int);
    }
    if i == na {
        i < nb
    } else if i == nb {
        false
    } else {
        assert(va@.skip(i as int)[0] == va@[i as int]);
        assert(vb@.skip(i as int)[0] == vb@[i as int]);
        va[i] < vb[i]
    }
}

/// Every element sorts strictly before the ones after it.
pub open spec fn sorted_strict(s: Seq<Seq<char>>) -> bool {
    forall|i: int, j: int| 0 <= i < j < s.len() ==> lex_lt(#[trigger] s[i], #[trigger] s[j])
}

/// Two strictly sorted sequences with the same elements are the same sequence.
pub proof fn lemma_sorted_unique(a: Seq<Seq<char>>, b: Seq<Seq<char>>)
    requires
        sorted_strict(a),
        sorted_strict(b),
        forall|x: Seq<char>| a.contains(x) <==> b.contains(x),
    ensures
        a == b,
    decreases a.len(),
{
    if a.len() == 0 {
        if b.len() > 0 {
            assert(b.contains(b[0]));
        }
        assert(a =~= b);
    } else {
        assert(a.contains(a[0]));
        assert(b.len() > 0);
        assert(b.contains(b[0]));
        if a[0] != b[0] {
            let j = choose|j: int| 0 <= j < b.len() && b[j] == a[0];
            let k = choose|k: int| 0 <= k < a.len() && a[k] == b[0];
            assert(j > 0);
            assert(k > 0);
            assert(lex_lt(b[0], b[j]));
            assert(lex_lt(a[0], a[k]));
            lemma_lex_transitive(a[0], b[0], a[0]);
            lemma_lex_irreflexive(a[0]);
        }
        let a1 = a.drop_first();
        let b1 = b.drop_first();
        assert forall|x: Seq<char>| a1.contains(x) <==> b1.contains(x) by {
            if a1.contains(x) {
                let i = choose|i: int| 0 <= i < a1.len() && a1[i] == x;
                assert(a[i + 1] == x);
                assert(lex_lt(a[0], x));
                lemma_lex_irreflexive(x);
                assert(b.contains(x));
                let j = choose|j: int| 0 <= j < b.len() && b[j] == x;
                assert(j != 0);
                assert(b1[j - 1] == x);
            }
            if b1.contains(x) {
                let i = choose|i: int| 0 <= i < b1.len() && b1[i] == x;
                assert(b[i + 1] == x);
                assert(lex_lt(b[0], x));
                lemma_lex_irreflexive(x);
                assert(a.contains(x));
                let j = choose|j: int| 0 <= j < a.len() && a[j] == x;
                assert(j != 0);
                assert(a1[j - 1] == x);
            }
        }
        lemma_sorted_unique(a1, b1);
        assert(a =~= b) by {
            assert forall|k: int| 0 <= k < a.len() implies a[k] == b[k] by {
                if k > 0 {
                    assert(a[k] == a1[k - 1]);
                    assert(b[k] == b1[k - 1]);
                }
            }
        }
    }
}

/// Inserts `x` into a strictly sorted list of names, unless it is there already.
fn insert_sorted(out: &mut Vec<String>, x: String)
    requires
        sorted_strict(views(old(out)@)),
    ensures
        sorted_strict(views(final(out)@)),
        forall|y: Seq<char>| #[trigger] views(final(out)@).contains(y) <==> (views(old(out)@).contains(y) || y == x@),
{
    let ghost s = views(out@);
    let n = out.len();
    let mut p: usize = 0;
    while p < n && str_less(out[p].as_str(), x.as_str())
        invariant
            p <= n,
            n == out.len(),
            s == views(out@),
            forall|q: int| 0 <= q < p ==> lex_lt(#[trigger] s[q], x@),
        decreases n - p,
    {
        p = p + 1;
    }
    if p < n && out[p] == x {
        assert(views(out@).contains(x@) == true) by {
            assert(s[p as int] == x@);
        }
        return;
    }
    proof {
        if p < n {
            assert(s[p as int] != x@);
            lemma_lex_total(s[p as int], x@);
        }
    }
    out.insert(p, x);
    proof {
        let t = views(out@);
        assert(t =~= s.insert(p as int, x@));
        assert forall|i: int, j: int| 0 <= i < j < t.len() implies lex_lt(#[trigger] t[i], #[trigger] t[j]) by {
            if j < p {
            } else if j == p {
            } else if i < p {
                assert(t[j] == s[j - 1]);
                if j - 1 > p {
                    assert(lex_lt(s[p as int], s[j - 1]));
                    lemma_lex_transitive(x@, s[p as int], s[j - 1]);
                }
                lemma_lex_transitive(s[i], x@, s[j - 1]);
            } else if i == p {
                assert(t[j] == s[j - 1]);
                if j - 1 > p {
                    assert(lex_lt(s[p as int], s[j - 1]));
                    lemma_lex_transitive(x@, s[p as int], s[j - 1]);
                }
            } else {
                assert(t[i] == s[i - 1]);
                assert(t[j] == s[j - 1]);
            }
        }
        assert forall|y: Seq<char>| #[trigger] t.contains(y) <==> (s.contains(y) || y == x@) by {
            if t.contains(y) {
                let i = choose|i: int| 0 <= i < t.len() && t[i] == y;
                if i < p {
                    assert(s[i] == y);
                } else if i > p {
                    assert(s[i - 1] == y);
                }
            }
            if s.contains(y) {
                let i = choose|i: int| 0 <= i < s.len() && s[i] == y;
                if i < p {
                    assert(t[i] == y);
                } else {
                    assert(t[i + 1] == y);
                }
            }
            if y == x@ {
                assert(t[p as int] == y);
            }
        }
    }
}

/// The configured ids, in order and without repeats.
pub open spec fn sorted_ids(t: Seq<(Seq<char>, ModelConfigView)>) -> Seq<Seq<char>> {
    choose|s: Seq<Seq<char>>| sorted_strict(s) && forall|id: Seq<char>| #[trigger] s.contains(id) <==> table_get(t, id) is Some
}

/// The configured model ids, sorted.
pub fn sorted_model_ids(api_configs: &ModelTable) -> (r: Vec<String>)
    ensures
        views(r@) == sorted_ids(api_configs@),
        sorted_strict(views(r@)),
        forall|id: Seq<char>| #[trigger] views(r@).contains(id) <==> table_get(api_configs@, id) is Some,
{
    let mut out: Vec<String> = Vec::new();
    let n = api_configs.len();
    let mut i: usize = 0;
    let ghost t = api_configs@;
    assert(views(out@) =~= Seq::<Seq<char>>::empty());
    while i < n
        invariant
            i <= n,
            n == api_configs@.len(),
            t == api_configs@,
            t.len() == n,
            sorted_strict(views(out@)),
            forall|id: Seq<char>| #[trigger] views(out@).contains(id) <==> exists|k: int| 0 <= k < i && (#[trigger] t[k]).0 == id,
        decreases n - i,
    {
        let id = api_configs.id_at(i).clone();
        assert(id@ == t[i as int].0);
        insert_sorted(&mut out, id);
        proof {
            assert forall|y: Seq<char>| #[trigger] views(out@).contains(y) <==> exists|k: int| 0 <= k < i + 1 && (#[trigger] t[k]).0 == y by {
                if y == t[i as int].0 {
                    assert(exists|k: int| 0 <= k < i + 1 && (#[trigger] t[k]).0 == y) by {
                        assert(t[i as int].0 == y);
                    }
                }
            }
        }
        i = i + 1;
    }
    proof {
        assert forall|id: Seq<char>| #[trigger] views(out@).contains(id) <==> table_get(t, id) is Some by {
            lemma_table_get_none(t, id);
        }
        let c = sorted_ids(t);
        assert(sorted_strict(c) && forall|id: Seq<char>| #[trigger] c.contains(id) <==> table_get(t, id) is Some);
        lemma_sorted_unique(views(out@), c);
    }
    out
}


/// The elements of `s` with `sep` between each two.
pub open spec fn join(s: Seq<Seq<char>>, sep: Seq<char>) -> Seq<char>
    decreases s.len(),
{
    if s.len() == 0 {
        Seq::empty()
    } else if s.len() == 1 {
        s[0]
    } else {
        join(s.drop_last(), sep) + sep + s.last()
    }
}

/// The strings of `v` with `sep` between each two.
pub fn join_strings(v: &Vec<String>, sep: &str) -> (r: String)
    ensures
        r@ == join(views(v@), sep@),
{
    let mut r = String::new();
    let n = v.len();
    let mut i: usize = 0;
    assert(views(v@).take(0) =~= Seq::<Seq<char>>::empty());
    while i < n
        invariant
            i <= n,
            n == v.len(),
            r@ == join(views(v@).take(i as int), sep@),
        decreases n - i,
    {
        proof {
            let p = views(v@).take(i + 1);
            assert(p.drop_last() =~= views(v@).take(i as int));
            assert(p.last() == v@[i as int]@);
            if i == 0 {
                assert(p[0] == v@[0]@);
            }
        }
        if i > 0 {
            r.append(sep);
        }
        r.append(v[i].as_str());
        proof {
            if i == 0 {
                assert(r@ =~= v@[0]@);
            }
        }
        i = i + 1;
    }
    assert(views(v@).take(n as int) =~= views(v@));
    r
}

/// Who a model is listed as belonging to: its provider, else its type.
pub open spec fn owner(c: ModelConfigView) -> Seq<char> {
    opt_or(c.provider, c.model_type)
}

/// One model as the listings show it.
#[derive(Debug, PartialEq, Eq)]
pub struct ModelSummary {
    pub id: String,
    pub name: String,
    pub model_type: String,
    pub owned_by: String,
    pub api_url: String,
    pub has_api_key: bool,
}

pub struct ModelSummaryView {
    pub id: Seq<char>,
    pub name: Seq<char>,
    pub model_type: Seq<char>,
    pub owned_by: Seq<char>,
    pub api_url: Seq<char>,
    pub has_api_key: bool,
}

impl View for ModelSummary {
    type V = ModelSummaryView;

    open spec fn view(&self) -> ModelSummaryView {
        ModelSummaryView {
            id: self.id@,
            name: self.name@,
            model_type: self.model_type@,
            owned_by: self.owned_by@,
            api_url: self.api_url@,
            has_api_key: self.has_api_key,
        }
    }
}

pub open spec fn summary_of(id: Seq<char>, c: ModelConfigView) -> ModelSummaryView {
    ModelSummaryView {
        id,
        name: c.name,
        model_type: c.model_type,
        owned_by: owner(c),
        api_url: c.api_url,
        has_api_key: c.api_key.len() > 0,
    }
}

/// A model's summary shows its id and, unchanged, the configured display name, type,
/// base URL, whether a key is set, and the provider it names (its type where it
/// names none).
pub proof fn lemma_summary_fields(id: Seq<char>, c: ModelConfigView)
    ensures
        summary_of(id, c).id == id,
        summary_of(id, c).name == c.name,
        summary_of(id, c).model_type == c.model_type,
        summary_of(id, c).api_url == c.api_url,
        summary_of(id, c).has_api_key == (c.api_key.len() > 0),
        c.provider matches Some(p) ==> summary_of(id, c).owned_by == p,
        c.provider is None ==> summary_of(id, c).owned_by == c.model_type,
{
}

/// The provider of a model, or its type where it names none.
pub fn owned_by(c: &ModelConfig) -> (r: String)
    ensures
        r@ == owner(c@),
{
    match &c.provider {
        Some(p) => p.clone(),
        None => c.model_type.clone(),
    }
}

/// The configured models in order of id, as the model list and the configuration
/// summary show them.
pub fn model_summaries(api_configs: &ModelTable) -> (r: Vec<ModelSummary>)
    ensures
        r@.len() == sorted_ids(api_configs@).len(),
        forall|i: int| 0 <= i < r@.len() ==> (#[trigger] r@[i])@ == summary_of(
            sorted_ids(api_configs@)[i],
            table_get(api_configs@, sorted_ids(api_configs@)[i])->0,
        ),
        forall|i: int| 0 <= i < r@.len() ==> {
            let c = table_get(api_configs@, sorted_ids(api_configs@)[i])->0;
            &&& (#[trigger] r@[i]).id@ == sorted_ids(api_configs@)[i]
            &&& r@[i].name@ == c.name
            &&& r@[i].model_type@ == c.model_type
            &&& r@[i].api_url@ == c.api_url
            &&& r@[i].has_api_key == (c.api_key.len() > 0)
            &&& r@[i].owned_by@ == opt_or(c.provider, c.model_type)
        },
{
    let ids = sorted_model_ids(api_configs);
    let ghost s = views(ids@);
    let mut r: Vec<ModelSummary> = Vec::new();
    let n = ids.len();
    let mut i: usize = 0;
    while i < n
        invariant
            i <= n,
            n == ids.len(),
            s == views(ids@),
            s == sorted_ids(api_configs@),
            forall|id: Seq<char>| #[trigger] s.contains(id) <==> table_get(api_configs@, id) is Some,
            r@.len() == i,
            forall|k: int| 0 <= k < i ==> (#[trigger] r@[k])@ == summary_of(s[k], table_get(api_configs@, s[k])->0),
        decreases n - i,
    {
        let id = &ids[i];
        assert(s.contains(s[i as int]));
        let c = api_configs.get(id.as_str()).unwrap();
        let summary = ModelSummary {
            id: id.clone(),
            name: c.name.clone(),
            model_type: c.model_type.clone(),
            owned_by: owned_by(c),
            api_url: c.api_url.clone(),
            has_api_key: !c.api_key.as_str().is_empty(),
        };
        r.push(summary);
        i = i + 1;
    }
    proof {
        assert forall|i: int| 0 <= i < r@.len() implies {
            let c = table_get(api_configs@, sorted_ids(api_configs@)[i])->0;
            &&& (#[trigger] r@[i]).id@ == sorted_ids(api_configs@)[i]
            &&& r@[i].name@ == c.name
            &&& r@[i].model_type@ == c.model_type
            &&& r@[i].api_url@ == c.api_url
            &&& r@[i].has_api_key == (c.api_key.len() > 0)
            &&& r@[i].owned_by@ == opt_or(c.provider, c.model_type)
        } by {
            assert(s.contains(s[i]));
            lemma_summary_fields(s[i], table_get(api_configs@, s[i])->0);
        }
    }
    r
}

} // verus!
