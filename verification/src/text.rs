use vstd::prelude::*;
use vstd::string::StrSliceExecFns;

verus! {

/// The `White_Space` property of Unicode, which `char::is_whitespace` tests.
pub open spec fn is_ws(c: char) -> bool {
    let u = c as u32;
    ||| 0x09 <= u <= 0x0D
    ||| u == 0x20
    ||| u == 0x85
    ||| u == 0xA0
    ||| u == 0x1680
    ||| 0x2000 <= u <= 0x200A
    ||| u == 0x2028
    ||| u == 0x2029
    ||| u == 0x202F
    ||| u == 0x205F
    ||| u == 0x3000
}

pub fn is_whitespace_char(c: char) -> (r: bool)
    ensures
        r == is_ws(c),
{
    let u = c as u32;
    (0x09 <= u && u <= 0x0D) || u == 0x20 || u == 0x85 || u == 0xA0 || u == 0x1680 || (0x2000
        <= u && u <= 0x200A) || u == 0x2028 || u == 0x2029 || u == 0x202F || u == 0x205F || u
        == 0x3000
}

/// The characters of a string slice, in order.
pub fn chars_of(s: &str) -> (v: Vec<char>)
    ensures
        v@ == s@,
{
    let mut v: Vec<char> = Vec::new();
    for c in it: s.chars()
        invariant
            v@ == it.seq().take(it.index() as int),
    {
        v.push(c);
    }
    v
}


/// `s` without its leading whitespace.
pub open spec fn trim_start(s: Seq<char>) -> Seq<char>
    decreases s.len(),
{
    if s.len() > 0 && is_ws(s[0]) {
        trim_start(s.drop_first())
    } else {
        s
    }
}

/// `s` without its trailing whitespace.
pub open spec fn trim_end(s: Seq<char>) -> Seq<char>
    decreases s.len(),
{
    if s.len() > 0 && is_ws(s.last()) {
        trim_end(s.drop_last())
    } else {
        s
    }
}

/// `s` without leading and trailing whitespace, as `str::trim` gives it.
pub open spec fn trim(s: Seq<char>) -> Seq<char> {
    trim_end(trim_start(s))
}

proof fn lemma_trim_start_skip(s: Seq<char>, i: int)
    requires
        0 <= i <= s.len(),
        forall|k: int| 0 <= k < i ==> is_ws(#[trigger] s[k]),
    ensures
        trim_start(s) == trim_start(s.skip(i)),
    decreases i,
{
    if i > 0 {
        assert(is_ws(s[0]));
        let t = s.drop_first();
        assert forall|k: int| 0 <= k < i - 1 implies is_ws(#[trigger] t[k]) by {
            assert(t[k] == s[k + 1]);
        }
        lemma_trim_start_skip(t, i - 1);
        assert(t.skip(i - 1) =~= s.skip(i));
    } else {
        assert(s.skip(0) =~= s);
    }
}

proof fn lemma_trim_end_take(s: Seq<char>, j: int)
    requires
        0 <= j <= s.len(),
        forall|k: int| j <= k < s.len() ==> is_ws(#[trigger] s[k]),
    ensures
        trim_end(s) == trim_end(s.take(j)),
    decreases s.len() - j,
{
    if j < s.len() {
        assert(is_ws(s.last()));
        let t = s.drop_last();
        lemma_trim_end_take(t, j);
        assert(t.take(j) =~= s.take(j));
    } else {
        assert(s.take(j) =~= s);
    }
}

/// A trimmed string, where it is not empty, starts with a character that is not
/// whitespace, and holds no character that the untrimmed string does not.
pub proof fn lemma_trim_start(s: Seq<char>)
    ensures
        trim_start(s).len() > 0 ==> !is_ws(trim_start(s)[0]),
        forall|c: char| trim_start(s).contains(c) ==> s.contains(c),
    decreases s.len(),
{
    if s.len() > 0 && is_ws(s[0]) {
        let t = s.drop_first();
        lemma_trim_start(t);
        assert forall|c: char| t.contains(c) implies s.contains(c) by {
            let i = choose|i: int| 0 <= i < t.len() && t[i] == c;
            assert(s[i + 1] == c);
        }
    }
}

/// Trimming the end keeps the first character and adds none.
pub proof fn lemma_trim_end(s: Seq<char>)
    ensures
        trim_end(s).len() > 0 ==> !is_ws(trim_end(s).last()) && trim_end(s)[0] == s[0],
        trim_end(s).len() <= s.len(),
        forall|c: char| trim_end(s).contains(c) ==> s.contains(c),
    decreases s.len(),
{
    if s.len() > 0 && is_ws(s.last()) {
        let t = s.drop_last();
        lemma_trim_end(t);
        assert forall|c: char| t.contains(c) implies s.contains(c) by {
            let i = choose|i: int| 0 <= i < t.len() && t[i] == c;
            assert(s[i] == c);
        }
        if trim_end(t).len() > 0 {
            assert(t[0] == s[0]);
        }
    }
}

/// A trimmed string that is not empty neither starts nor ends with whitespace, and
/// holds no character that the untrimmed string does not.
pub proof fn lemma_trim(s: Seq<char>)
    ensures
        trim(s).len() > 0 ==> !is_ws(trim(s)[0]) && !is_ws(trim(s).last()),
        forall|c: char| trim(s).contains(c) ==> s.contains(c),
{
    lemma_trim_start(s);
    lemma_trim_end(trim_start(s));
}

proof fn lemma_trim_start_cut(s: Seq<char>) -> (i: int)
    ensures
        0 <= i <= s.len(),
        trim_start(s) == s.skip(i),
        forall|k: int| 0 <= k < i ==> is_ws(#[trigger] s[k]),
        i < s.len() ==> !is_ws(s[i]),
    decreases s.len(),
{
    if s.len() > 0 && is_ws(s[0]) {
        let t = s.drop_first();
        let i0 = lemma_trim_start_cut(t);
        assert(t.skip(i0) =~= s.skip(i0 + 1));
        assert forall|k: int| 0 <= k < i0 + 1 implies is_ws(#[trigger] s[k]) by {
            if k > 0 {
                assert(s[k] == t[k - 1]);
            }
        }
        if i0 + 1 < s.len() {
            assert(s[i0 + 1] == t[i0]);
        }
        i0 + 1
    } else {
        assert(s.skip(0) =~= s);
        0
    }
}

proof fn lemma_trim_end_cut(s: Seq<char>) -> (j: int)
    ensures
        0 <= j <= s.len(),
        trim_end(s) == s.take(j),
        forall|k: int| j <= k < s.len() ==> is_ws(#[trigger] s[k]),
        j > 0 ==> !is_ws(s[j - 1]),
    decreases s.len(),
{
    if s.len() > 0 && is_ws(s.last()) {
        let t = s.drop_last();
        let j0 = lemma_trim_end_cut(t);
        assert(t.take(j0) =~= s.take(j0));
        assert forall|k: int| j0 <= k < s.len() implies is_ws(#[trigger] s[k]) by {
            if k < s.len() - 1 {
                assert(s[k] == t[k]);
            }
        }
        if j0 > 0 {
            assert(s[j0 - 1] == t[j0 - 1]);
        }
        j0
    } else {
        assert(s.take(s.len() as int) =~= s);
        s.len() as int
    }
}

/// Trimming cuts a string between its leading and its trailing whitespace: what
/// remains is a slice `s[i..j]` with only whitespace before `i` and from `j` on,
/// and, where it is not empty, no whitespace at either end.
pub proof fn lemma_trim_is_slice(s: Seq<char>)
    ensures
        exists|i: int, j: int| {
            &&& 0 <= i <= j <= s.len()
            &&& trim(s) == s.subrange(i, j)
            &&& forall|k: int| 0 <= k < i ==> is_ws(#[trigger] s[k])
            &&& forall|k: int| j <= k < s.len() ==> is_ws(#[trigger] s[k])
            &&& i < j ==> !is_ws(s[i]) && !is_ws(s[j - 1])
        },
{
    let i = lemma_trim_start_cut(s);
    let u = s.skip(i);
    let j0 = lemma_trim_end_cut(u);
    let j = i + j0;
    assert(u.take(j0) =~= s.subrange(i, j));
    assert forall|k: int| j <= k < s.len() implies is_ws(#[trigger] s[k]) by {
        assert(s[k] == u[k - i]);
    }
    if i < j {
        assert(s[i] == u[0]);
        assert(s[j - 1] == u[j0 - 1]);
    }
    assert({
        &&& 0 <= i <= j <= s.len()
        &&& trim(s) == s.subrange(i, j)
        &&& forall|k: int| 0 <= k < i ==> is_ws(#[trigger] s[k])
        &&& forall|k: int| j <= k < s.len() ==> is_ws(#[trigger] s[k])
        &&& i < j ==> !is_ws(s[i]) && !is_ws(s[j - 1])
    });
}

/// The bounds of the trimmed part of `v[lo..hi]`.
pub fn trim_bounds(v: &Vec<char>, lo: usize, hi: usize) -> (r: (usize, usize))
    requires
        lo <= hi <= v.len(),
    ensures
        lo <= r.0 <= r.1 <= hi,
        v@.subrange(r.0 as int, r.1 as int) == trim(v@.subrange(lo as int, hi as int)),
{
    let ghost w = v@.subrange(lo as int, hi as int);
    let mut i: usize = lo;
    while i < hi && is_whitespace_char(v[i])
        invariant
            lo <= i <= hi,
            hi <= v.len(),
            forall|k: int| lo <= k < i ==> is_ws(#[trigger] v@[k]),
        decreases hi - i,
    {
        i = i + 1;
    }
    let mut j: usize = hi;
    while j > i && is_whitespace_char(v[j - 1])
        invariant
            lo <= i <= j <= hi,
            hi <= v.len(),
            forall|k: int| j <= k < hi ==> is_ws(#[trigger] v@[k]),
        decreases j - i,
    {
        j = j - 1;
    }
    proof {
        assert forall|k: int| 0 <= k < i - lo implies is_ws(#[trigger] w[k]) by {
            assert(w[k] == v@[k + lo]);
        }
        lemma_trim_start_skip(w, i - lo);
        let t = w.skip(i - lo);
        assert(t =~= v@.subrange(i as int, hi as int));
        assert(trim_start(t) == t);
        assert forall|k: int| j - i <= k < t.len() implies is_ws(#[trigger] t[k]) by {
            assert(t[k] == v@[k + i]);
        }
        lemma_trim_end_take(t, j - i);
        let u = t.take(j - i);
        assert(u =~= v@.subrange(i as int, j as int));
        if u.len() > 0 {
            assert(u.last() == v@[j - 1]);
        }
        assert(trim_end(u) == u);
    }
    (i, j)
}

/// `s` with leading and trailing whitespace removed.
pub fn trim_str(s: &str) -> (r: String)
    ensures
        r@ == trim(s@),
{
    let v = chars_of(s);
    let n = v.len();
    let (i, j) = trim_bounds(&v, 0, n);
    assert(v@.subrange(0, n as int) =~= v@);
    s.substring_char(i, j).to_owned()
}


/// The views of a sequence of strings.
pub open spec fn views(v: Seq<String>) -> Seq<Seq<char>> {
    v.map_values(|x: String| x@)
}

/// The pieces of `s` between commas, as `str::split(',')` yields them.
pub open spec fn split_commas(s: Seq<char>) -> Seq<Seq<char>>
    decreases s.len(),
{
    if s.len() == 0 {
        seq![Seq::empty()]
    } else {
        let p = split_commas(s.drop_last());
        if s.last() == ',' {
            p.push(Seq::empty())
        } else {
            p.update(p.len() - 1, p.last().push(s.last()))
        }
    }
}

/// The trimmed pieces that are not empty, in order.
pub open spec fn nonempty_trimmed(pieces: Seq<Seq<char>>) -> Seq<Seq<char>>
    decreases pieces.len(),
{
    if pieces.len() == 0 {
        Seq::empty()
    } else {
        let r = nonempty_trimmed(pieces.drop_last());
        let t = trim(pieces.last());
        if t.len() > 0 {
            r.push(t)
        } else {
            r
        }
    }
}

/// The items of a comma-separated list: each piece trimmed, empty ones left out.
pub open spec fn csv_items(s: Seq<char>) -> Seq<Seq<char>> {
    nonempty_trimmed(split_commas(s))
}

proof fn lemma_split_commas_nonempty(s: Seq<char>)
    ensures
        split_commas(s).len() >= 1,
    decreases s.len(),
{
    if s.len() > 0 {
        lemma_split_commas_nonempty(s.drop_last());
    }
}

proof fn lemma_split_commas_no_comma(s: Seq<char>)
    ensures
        forall|i: int| 0 <= i < split_commas(s).len() ==> !(#[trigger] split_commas(s)[i]).contains(','),
    decreases s.len(),
{
    if s.len() > 0 {
        let t = s.drop_last();
        lemma_split_commas_no_comma(t);
        lemma_split_commas_nonempty(t);
        let p = split_commas(t);
        if s.last() != ',' {
            let q = p.last().push(s.last());
            assert(!q.contains(',')) by {
                if q.contains(',') {
                    let k = choose|k: int| 0 <= k < q.len() && q[k] == ',';
                    assert(p.last()[k] == ',');
                }
            }
            assert forall|i: int| 0 <= i < split_commas(s).len() implies !(#[trigger] split_commas(s)[i]).contains(',') by {
                if i < p.len() - 1 {
                    assert(split_commas(s)[i] == p[i]);
                }
            }
        } else {
            assert forall|i: int| 0 <= i < split_commas(s).len() implies !(#[trigger] split_commas(s)[i]).contains(',') by {
                if i < p.len() {
                    assert(split_commas(s)[i] == p[i]);
                } else {
                    assert(split_commas(s)[i] =~= Seq::<char>::empty());
                }
            }
        }
    }
}

proof fn lemma_nonempty_trimmed_shape(pieces: Seq<Seq<char>>)
    requires
        forall|i: int| 0 <= i < pieces.len() ==> !(#[trigger] pieces[i]).contains(','),
    ensures
        forall|i: int| 0 <= i < nonempty_trimmed(pieces).len() ==> {
            let x = #[trigger] nonempty_trimmed(pieces)[i];
            &&& x.len() > 0
            &&& !is_ws(x[0])
            &&& !is_ws(x.last())
            &&& !x.contains(',')
        },
    decreases pieces.len(),
{
    if pieces.len() > 0 {
        let t = pieces.drop_last();
        assert forall|i: int| 0 <= i < t.len() implies !(#[trigger] t[i]).contains(',') by {
            assert(t[i] == pieces[i]);
        }
        lemma_nonempty_trimmed_shape(t);
        lemma_trim(pieces.last());
        assert(!pieces[pieces.len() - 1].contains(','));
        let tr = trim(pieces.last());
        assert(!tr.contains(','));
        let r = nonempty_trimmed(t);
        assert forall|i: int| 0 <= i < nonempty_trimmed(pieces).len() implies {
            let x = #[trigger] nonempty_trimmed(pieces)[i];
            &&& x.len() > 0
            &&& !is_ws(x[0])
            &&& !is_ws(x.last())
            &&& !x.contains(',')
        } by {
            if i < r.len() {
                assert(nonempty_trimmed(pieces)[i] == r[i]);
            } else {
                assert(nonempty_trimmed(pieces)[i] == tr);
            }
        }
    }
}

/// Every item of a comma-separated list is non-empty, starts and ends with a
/// character that is not whitespace, and holds no comma.
pub proof fn lemma_csv_items_shape(s: Seq<char>)
    ensures
        forall|i: int| 0 <= i < csv_items(s).len() ==> {
            let x = #[trigger] csv_items(s)[i];
            &&& x.len() > 0
            &&& !is_ws(x[0])
            &&& !is_ws(x.last())
            &&& !x.contains(',')
        },
{
    lemma_split_commas_no_comma(s);
    lemma_nonempty_trimmed_shape(split_commas(s));
}

/// The items of the comma-separated list `raw`, each trimmed, empty ones dropped.
pub fn split_csv(raw: &str) -> (r: Vec<String>)
    ensures
        views(r@) == csv_items(raw@),
{
    let v = chars_of(raw);
    let n = v.len();
    let mut out: Vec<String> = Vec::new();
    let mut start: usize = 0;
    let mut i: usize = 0;
    let ghost mut pieces: Seq<Seq<char>> = Seq::empty();
    assert(v@.take(0) =~= Seq::<char>::empty());
    assert(v@.subrange(0, 0) =~= Seq::<char>::empty());
    while i < n
        invariant
            n == v.len(),
            v@ == raw@,
            start <= i <= n,
            split_commas(v@.take(i as int)) == pieces.push(v@.subrange(start as int, i as int)),
            views(out@) == nonempty_trimmed(pieces),
        decreases n - i,
    {
        let c = v[i];
        proof {
            lemma_split_commas_nonempty(v@.take(i as int));
            assert(v@.take(i + 1).drop_last() =~= v@.take(i as int));
            assert(v@.take(i + 1).last() == c);
        }
        if c == ',' {
            let (a, b) = trim_bounds(&v, start, i);
            let ghost old_out = out@;
            if a < b {
                out.push(raw.substring_char(a, b).to_owned());
            }
            proof {
                let piece = v@.subrange(start as int, i as int);
                let np = pieces.push(piece);
                assert(np.drop_last() =~= pieces);
                assert(views(out@) =~= nonempty_trimmed(np)) by {
                    if a < b {
                        assert(views(out@) =~= views(old_out).push(trim(piece)));
                    } else {
                        assert(views(out@) =~= views(old_out));
                    }
                }
                pieces = np;
                assert(v@.subrange(i + 1, i + 1) =~= Seq::<char>::empty());
            }
            start = i + 1;
        } else {
            proof {
                assert(v@.subrange(start as int, i + 1) =~= v@.subrange(start as int, i as int).push(c));
                let p = split_commas(v@.take(i as int));
                assert(p.update(p.len() - 1, p.last().push(c)) =~= pieces.push(v@.subrange(start as int, i + 1)));
            }
        }
        i = i + 1;
    }
    let (a, b) = trim_bounds(&v, start, n);
    let ghost old_out = out@;
    if a < b {
        out.push(raw.substring_char(a, b).to_owned());
    }
    proof {
        assert(v@.take(n as int) =~= v@);
        let piece = v@.subrange(start as int, n as int);
        let np = pieces.push(piece);
        assert(np.drop_last() =~= pieces);
        if a < b {
            assert(views(out@) =~= views(old_out).push(trim(piece)));
        } else {
            assert(views(out@) =~= views(old_out));
        }
    }
    out
}


pub open spec fn is_digit(c: char) -> bool {
    48 <= c as u32 <= 57
}

pub open spec fn is_ascii_alpha(c: char) -> bool {
    65 <= c as u32 <= 90 || 97 <= c as u32 <= 122
}

pub open spec fn is_ascii_alnum(c: char) -> bool {
    is_ascii_alpha(c) || is_digit(c)
}

/// The number that a sequence of decimal digits denotes.
pub open spec fn decimal_value(s: Seq<char>) -> int
    decreases s.len(),
{
    if s.len() == 0 {
        0
    } else {
        decimal_value(s.drop_last()) * 10 + (s.last() as u32 - 48)
    }
}

pub open spec fn all_digits(s: Seq<char>) -> bool {
    forall|k: int| 0 <= k < s.len() ==> is_digit(#[trigger] s[k])
}

/// The digits of an unsigned number: a leading `+` is allowed and dropped.
pub open spec fn unsigned_digits(s: Seq<char>) -> Seq<char> {
    if s.len() > 0 && s[0] == '+' {
        s.drop_first()
    } else {
        s
    }
}

/// What `str::parse` gives for an unsigned integer type whose largest value is `max`:
/// an optional `+`, then at least one decimal digit and nothing else, the value at
/// most `max`.
pub open spec fn parse_unsigned(s: Seq<char>, max: int) -> Option<int> {
    let d = unsigned_digits(s);
    if d.len() > 0 && all_digits(d) && decimal_value(d) <= max {
        Some(decimal_value(d))
    } else {
        None
    }
}

proof fn lemma_decimal_value_nonneg(s: Seq<char>)
    requires
        all_digits(s),
    ensures
        decimal_value(s) >= 0,
    decreases s.len(),
{
    if s.len() > 0 {
        lemma_decimal_value_nonneg(s.drop_last());
    }
}

/// A number does not shrink when digits are appended to it.
proof fn lemma_decimal_value_prefix(s: Seq<char>, k: int)
    requires
        all_digits(s),
        0 <= k <= s.len(),
    ensures
        decimal_value(s.take(k)) <= decimal_value(s),
    decreases s.len() - k,
{
    if k < s.len() {
        let t = s.drop_last();
        assert(t.take(k) =~= s.take(k));
        lemma_decimal_value_prefix(t, k);
        lemma_decimal_value_nonneg(t);
    } else {
        assert(s.take(k) =~= s);
    }
}

/// Parses an unsigned decimal number no larger than `max`, as `str::parse` does
/// for the unsigned integer types.
pub fn parse_decimal(s: &str, max: u64) -> (r: Option<u64>)
    ensures
        match r {
            Some(x) => parse_unsigned(s@, max as int) == Some(x as int),
            None => parse_unsigned(s@, max as int) is None,
        },
{
    let v = chars_of(s);
    let n = v.len();
    let start: usize = if n > 0 && v[0] == '+' { 1 } else { 0 };
    let ghost d = unsigned_digits(s@);
    assert(d =~= v@.skip(start as int));
    if start == n {
        return None;
    }
    let mut acc: u64 = 0;
    let mut k: usize = start;
    assert(d.take(0) =~= Seq::<char>::empty());
    while k < n
        invariant
            start <= k <= n,
            n == v.len(),
            v@ == s@,
            d == v@.skip(start as int),
            d == unsigned_digits(s@),
            acc <= max,
            acc as int == decimal_value(d.take(k - start)),
            all_digits(d.take(k - start)),
        decreases n - k,
    {
        let c = v[k];
        let cu = c as u32;
        assert(d[k - start] == c);
        if cu < 48 || cu > 57 {
            assert(!is_digit(d[k - start]));
            assert(!all_digits(d));
            assert(unsigned_digits(s@) == d);
            assert(parse_unsigned(s@, max as int) is None);
            return None;
        }
        let next: u128 = acc as u128 * 10 + (cu - 48) as u128;
        proof {
            let p = d.take(k - start + 1);
            assert(p.drop_last() =~= d.take(k - start));
            assert(p.last() == c);
            assert(all_digits(p)) by {
                assert forall|j: int| 0 <= j < p.len() implies is_digit(#[trigger] p[j]) by {
                    if j < p.len() - 1 {
                        assert(p[j] == d.take(k - start)[j]);
                    }
                }
            }
            assert(next == decimal_value(p));
        }
        if next > max as u128 {
            proof {
                if all_digits(d) {
                    lemma_decimal_value_prefix(d, k - start + 1);
                    assert(decimal_value(d) > max);
                }
            }
            return None;
        }
        acc = next as u64;
        k = k + 1;
    }
    assert(d.take(n - start) =~= d);
    Some(acc)
}

/// Whether `s` is a usable extra model id: ASCII letters, digits and `_`, not
/// starting with a digit.
pub open spec fn valid_extra_model_id(s: Seq<char>) -> bool {
    &&& s.len() > 0
    &&& is_ascii_alpha(s[0]) || s[0] == '_'
    &&& forall|k: int| 1 <= k < s.len() ==> is_ascii_alnum(#[trigger] s[k]) || s[k] == '_'
}

/// The extra model id rule, character by character: an id is accepted exactly when
/// it is not empty, its first character is an ASCII letter (`A`-`Z`, `a`-`z`) or
/// `_`, and each of its characters is an ASCII letter, an ASCII digit (`0`-`9`) or
/// `_`.
pub proof fn lemma_extra_model_id_rule(s: Seq<char>)
    ensures
        valid_extra_model_id(s) <==> {
            &&& s.len() > 0
            &&& (65 <= s[0] as u32 <= 90 || 97 <= s[0] as u32 <= 122 || s[0] == '_')
            &&& forall|k: int| 0 <= k < s.len() ==> {
                let u = #[trigger] s[k] as u32;
                65 <= u <= 90 || 97 <= u <= 122 || 48 <= u <= 57 || s[k] == '_'
            }
        },
{
}

/// The `EXTRA_MODEL_IDS` rule: ASCII letters, digits and underscores only, and the
/// first character is a letter or an underscore.
pub fn is_valid_extra_model_id(model_id: &str) -> (r: bool)
    ensures
        r == valid_extra_model_id(model_id@),
{
    let v = chars_of(model_id);
    let n = v.len();
    if n == 0 {
        return false;
    }
    let first = v[0];
    let fu = first as u32;
    if !((65 <= fu && fu <= 90) || (97 <= fu && fu <= 122) || first == '_') {
        return false;
    }
    let mut k: usize = 1;
    while k < n
        invariant
            1 <= k <= n,
            n == v.len(),
            v@ == model_id@,
            forall|j: int| 1 <= j < k ==> is_ascii_alnum(#[trigger] v@[j]) || v@[j] == '_',
        decreases n - k,
    {
        let ch = v[k];
        let c = ch as u32;
        if !((65 <= c && c <= 90) || (97 <= c && c <= 122) || (48 <= c && c <= 57) || ch == '_') {
            return false;
        }
        k = k + 1;
    }
    true
}

/// `s` without its trailing slashes.
pub open spec fn strip_trailing_slashes(s: Seq<char>) -> Seq<char>
    decreases s.len(),
{
    if s.len() > 0 && s.last() == '/' {
        strip_trailing_slashes(s.drop_last())
    } else {
        s
    }
}

pub open spec fn ends_with(s: Seq<char>, suffix: Seq<char>) -> bool {
    s.len() >= suffix.len() && s.skip(s.len() - suffix.len()) == suffix
}

/// The path that an upstream base URL may be given with by mistake.
pub open spec fn chat_completions_path() -> Seq<char> {
    "/chat/completions"@
}

/// A base URL without trailing slashes and without one `/chat/completions` at its end.
pub open spec fn normalized_api_url(s: Seq<char>) -> Seq<char> {
    let t = strip_trailing_slashes(s);
    if ends_with(t, chat_completions_path()) {
        t.take(t.len() - chat_completions_path().len())
    } else {
        t
    }
}

proof fn lemma_strip_take(s: Seq<char>, j: int)
    requires
        0 <= j <= s.len(),
        forall|k: int| j <= k < s.len() ==> #[trigger] s[k] == '/',
    ensures
        strip_trailing_slashes(s) == strip_trailing_slashes(s.take(j)),
    decreases s.len() - j,
{
    if j < s.len() {
        let t = s.drop_last();
        lemma_strip_take(t, j);
        assert(t.take(j) =~= s.take(j));
    } else {
        assert(s.take(j) =~= s);
    }
}

/// Trailing slashes make no difference to the normalised URL.
pub proof fn lemma_normalize_ignores_trailing_slash(s: Seq<char>)
    ensures
        normalized_api_url(s.push('/')) == normalized_api_url(s),
{
    assert(s.push('/').drop_last() =~= s);
}

/// A base URL that does not end with a slash is what remains when
/// `/chat/completions`, with or without a trailing slash, is normalised away.
pub proof fn lemma_normalize_strips_chat_path(s: Seq<char>)
    requires
        s.len() == 0 || s.last() != '/',
    ensures
        normalized_api_url(s + chat_completions_path()) == s,
        normalized_api_url((s + chat_completions_path()).push('/')) == s,
{
    reveal_strlit("/chat/completions");
    let t = s + chat_completions_path();
    assert(t.last() == 's');
    assert(strip_trailing_slashes(t) == t);
    assert(t.skip(t.len() - chat_completions_path().len()) =~= chat_completions_path());
    assert(t.take(t.len() - chat_completions_path().len()) =~= s);
    lemma_normalize_ignores_trailing_slash(t);
}

/// A base URL that ends neither with a slash nor with `/chat/completions` is kept
/// as it is.
pub proof fn lemma_normalize_keeps_plain_url(s: Seq<char>)
    requires
        s.len() == 0 || s.last() != '/',
        !(s.len() >= 17 && s.skip(s.len() - 17) == "/chat/completions"@),
    ensures
        normalized_api_url(s) == s,
{
    reveal_strlit("/chat/completions");
    assert(strip_trailing_slashes(s) == s);
}

/// Normalises an upstream base URL: trailing slashes go, then one trailing
/// `/chat/completions`.
pub fn normalize_api_url(api_url: &str) -> (r: String)
    ensures
        r@ == normalized_api_url(api_url@),
{
    let v = chars_of(api_url);
    let n = v.len();
    let mut j: usize = n;
    while j > 0 && v[j - 1] == '/'
        invariant
            j <= n,
            n == v.len(),
            forall|k: int| j <= k < n ==> #[trigger] v@[k] == '/',
        decreases j,
    {
        j = j - 1;
    }
    let ghost t = v@.take(j as int);
    proof {
        lemma_strip_take(v@, j as int);
        assert(strip_trailing_slashes(t) == t);
    }
    let suffix = chars_of("/chat/completions");
    let m = suffix.len();
    let mut end: usize = j;
    if j >= m {
        let mut ok = true;
        let mut k: usize = 0;
        while k < m
            invariant
                k <= m,
                m == suffix.len(),
                m <= j <= n,
                n == v.len(),
                ok <==> (forall|q: int| 0 <= q < k ==> v@[j - m + q] == suffix@[q]),
                t == v@.take(j as int),
                suffix@ == chat_completions_path(),
            decreases m - k,
        {
            if v[j - m + k] != suffix[k] {
                ok = false;
            }
            k = k + 1;
        }
        proof {
            if ok {
                assert(t.skip(t.len() - m) =~= suffix@);
            } else {
                let q = choose|q: int| 0 <= q < m && v@[j - m + q] != suffix@[q];
                assert(suffix@ == chat_completions_path());
                assert(t.len() == j);
                assert(t.skip(t.len() - m)[q] == v@[j - m + q]);
                assert(t.skip(t.len() - m)[q] != suffix@[q]);
                assert(!ends_with(t, chat_completions_path()));
            }
        }
        if ok {
            end = j - m;
        }
        assert(ok == ends_with(t, chat_completions_path()));
    } else {
        assert(suffix@ == chat_completions_path());
        assert(!ends_with(t, chat_completions_path()));
    }
    assert(v@.subrange(0, end as int) =~= normalized_api_url(api_url@));
    api_url.substring_char(0, end).to_owned()
}

} // verus!
