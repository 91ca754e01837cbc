//! JSON values as the configuration logic reads them, and the deep merge
//! that layers a project-local configuration over the global one.

use vstd::prelude::*;

use crate::text::str_eq;

verus! {

/// A JSON value. Numbers are kept as their text; objects as their fields in
/// order, with distinct keys.
#[derive(Debug)]
pub enum Json {
    Null,
    Bool(bool),
    Number(String),
    Str(String),
    Array(Vec<Json>),
    Object(Vec<(String, Json)>),
}

/// The mathematical form of a [`Json`] value.
pub enum SpecJson {
    Null,
    Bool(bool),
    Number(Seq<char>),
    Str(Seq<char>),
    Array(Seq<SpecJson>),
    Object(Seq<(Seq<char>, SpecJson)>),
}

impl View for Json {
    type V = SpecJson;

    open spec fn view(&self) -> SpecJson {
        json_view(*self)
    }
}

/// The mathematical form of a JSON value.
pub open spec fn json_view(j: Json) -> SpecJson
    decreases j, 0int,
{
    match j {
        Json::Null => SpecJson::Null,
        Json::Bool(b) => SpecJson::Bool(b),
        Json::Number(n) => SpecJson::Number(n@),
        Json::Str(s) => SpecJson::Str(s@),
        Json::Array(a) => SpecJson::Array(items_view(a@, a@.len() as int)),
        Json::Object(o) => SpecJson::Object(fields_view_n(o@, o@.len() as int)),
    }
}

/// The mathematical forms of the first `n` items of `a`.
pub open spec fn items_view(a: Seq<Json>, n: int) -> Seq<SpecJson>
    decreases a, n,
{
    if n <= 0 || n > a.len() {
        seq![]
    } else {
        items_view(a, n - 1).push(json_view(a[n - 1]))
    }
}

/// The mathematical forms of the first `n` fields of `o`.
pub open spec fn fields_view_n(o: Seq<(String, Json)>, n: int) -> Seq<(Seq<char>, SpecJson)>
    decreases o, n,
{
    if n <= 0 || n > o.len() {
        seq![]
    } else {
        fields_view_n(o, n - 1).push((o[n - 1].0@, json_view(o[n - 1].1)))
    }
}

/// The fields of an object as mathematical values.
pub open spec fn fields_view(v: Seq<(String, Json)>) -> Seq<(Seq<char>, SpecJson)> {
    fields_view_n(v, v.len() as int)
}

/// The first `n` fields, field by field.
proof fn lemma_fields_view_n(o: Seq<(String, Json)>, n: int)
    requires
        0 <= n <= o.len(),
    ensures
        fields_view_n(o, n).len() == n,
        forall|i: int| 0 <= i < n ==> #[trigger] fields_view_n(o, n)[i] == (o[i].0@, o[i].1@),
    decreases n,
{
    if n > 0 {
        lemma_fields_view_n(o, n - 1);
    }
}

/// The mathematical fields of `v`, one by one.
pub(crate) proof fn lemma_fields_view(v: Seq<(String, Json)>)
    ensures
        fields_view(v).len() == v.len(),
        forall|i: int| 0 <= i < v.len() ==> #[trigger] fields_view(v)[i] == (v[i].0@, v[i].1@),
{
    lemma_fields_view_n(v, v.len() as int);
}

/// Fields with the same mathematical forms, one by one, have the same
/// mathematical form.
pub(crate) proof fn lemma_fields_view_ext(v: Seq<(String, Json)>, s: Seq<(Seq<char>, SpecJson)>)
    requires
        v.len() == s.len(),
        forall|i: int| 0 <= i < v.len() ==> #[trigger] s[i] == (v[i].0@, v[i].1@),
    ensures
        fields_view(v) == s,
{
    lemma_fields_view(v);
    assert(fields_view(v) =~= s);
}

/// The position of the first field named `k`.
pub open spec fn field_index(fs: Seq<(Seq<char>, SpecJson)>, k: Seq<char>) -> Option<int> {
    if exists|i: int| 0 <= i < fs.len() && fs[i].0 == k {
        Some(choose|i: int| 0 <= i < fs.len() && fs[i].0 == k && forall|j: int| 0 <= j < i ==> fs[j].0 != k)
    } else {
        None
    }
}

/// The fields `b` after the fields `o` are merged into them one by one, in
/// order: a field of `b` with the same name is merged with the new value,
/// a new name is added at the end.
pub open spec fn merge_fields(b: Seq<(Seq<char>, SpecJson)>, o: Seq<(Seq<char>, SpecJson)>) -> Seq<
    (Seq<char>, SpecJson),
>
    decreases o, 0int,
{
    if o.len() == 0 {
        b
    } else {
        let b1 = merge_fields(b, o.drop_last());
        let k = o.last().0;
        let v = o.last().1;
        match field_index(b1, k) {
            Some(i) => b1.update(i, (k, merge_json(b1[i].1, v))),
            None => b1.push((k, v)),
        }
    }
}

/// `over` deep-merged into `base`: two objects merge field by field,
/// recursively; any other `over` replaces `base`.
pub open spec fn merge_json(base: SpecJson, over: SpecJson) -> SpecJson
    decreases over, 1int,
{
    match over {
        SpecJson::Object(o) => match base {
            SpecJson::Object(b) => SpecJson::Object(merge_fields(b, o)),
            _ => over,
        },
        _ => over,
    }
}

/// The position of the first field named `k` in `b`.
fn find_field(b: &Vec<(String, Json)>, k: &str) -> (r: Option<usize>)
    ensures
        r matches Some(i) ==> i < b@.len(),
        match r {
            Some(i) => field_index(fields_view(b@), k@) == Some(i as int),
            None => field_index(fields_view(b@), k@) is None,
        },
{
    proof {
        lemma_fields_view(b@);
    }
    let ghost fs = fields_view(b@);
    let mut i: usize = 0;
    while i < b.len()
        invariant
            0 <= i <= b@.len(),
            fs == fields_view(b@),
            fs.len() == b@.len(),
            forall|j: int| 0 <= j < b@.len() ==> #[trigger] fs[j] == (b@[j].0@, b@[j].1@),
            forall|j: int| 0 <= j < i ==> #[trigger] fs[j].0 != k@,
        decreases b@.len() - i,
    {
        if str_eq(b[i].0.as_str(), k) {
            assert(fs[i as int].0 == k@);
            return Some(i);
        }
        assert(fs[i as int].0 != k@);
        i = i + 1;
    }
    None
}

/// Merges the fields `o` into the fields `b`, in order.
fn merge_field_vecs(b: Vec<(String, Json)>, o: Vec<(String, Json)>) -> (r: Vec<(String, Json)>)
    ensures
        fields_view(r@) == merge_fields(fields_view(b@), fields_view(o@)),
    decreases o@, 0int,
{
    let ghost orig = o@;
    let o_len = o.len();
    let ghost bv = fields_view(b@);
    let ghost ov = fields_view(o@);
    proof {
        lemma_fields_view(o@);
    }
    let mut acc = b;
    let mut rest = o;
    let mut j: usize = 0;
    assert(ov.take(0) =~= Seq::<(Seq<char>, SpecJson)>::empty());
    while rest.len() > 0
        invariant
            j <= orig.len(),
            orig.len() == o_len,
            orig == o@,
            rest@ == orig.skip(j as int),
            ov == fields_view(orig),
            ov.len() == orig.len(),
            forall|i: int| 0 <= i < orig.len() ==> #[trigger] ov[i] == (orig[i].0@, orig[i].1@),
            fields_view(acc@) == merge_fields(bv, ov.take(j as int)),
        decreases rest@.len(),
    {
        let (k, v) = rest.remove(0);
        assert(orig[j as int] == (k, v));
        assert(ov.take(j + 1).drop_last() =~= ov.take(j as int));
        assert(ov.take(j + 1).last() == (k@, v@));
        let ghost before = fields_view(acc@);
        proof {
            lemma_fields_view(acc@);
        }
        let ghost acc0 = acc@;
        match find_field(&acc, k.as_str()) {
            Some(i) => {
                let (old_k, old_v) = acc.remove(i);
                assert(old_v@ == before[i as int].1);
                assert(decreases_to!(orig => orig[j as int]));
                assert(decreases_to!(orig[j as int] => orig[j as int].1));
                assert(decreases_to!(orig => v));
                assert(decreases_to!(orig, 0int => v, 1int));
                let nv = merged(old_v, v);
                acc.insert(i, (k, nv));
                proof {
                    let target = before.update(i as int, (k@, merge_json(before[i as int].1, v@)));
                    assert forall|q: int| 0 <= q < acc@.len() implies #[trigger] target[q] == (
                    acc@[q].0@, acc@[q].1@) by {
                        if q != i {
                            assert(acc@[q] == acc0[q]);
                        }
                    }
                    lemma_fields_view_ext(acc@, target);
                }
            },
            None => {
                acc.push((k, v));
                proof {
                    let target = before.push((k@, v@));
                    assert forall|q: int| 0 <= q < acc@.len() implies #[trigger] target[q] == (
                    acc@[q].0@, acc@[q].1@) by {
                        if q < acc0.len() {
                            assert(acc@[q] == acc0[q]);
                        }
                    }
                    lemma_fields_view_ext(acc@, target);
                }
            },
        }
        j = j + 1;
        assert(rest@ =~= orig.skip(j as int));
    }
    assert(ov.take(j as int) =~= ov);
    acc
}

/// `over` deep-merged into `base`: objects merge per key recursively; any
/// other value of `over` replaces `base`.
pub fn merged(base: Json, over: Json) -> (r: Json)
    ensures
        r@ == merge_json(base@, over@),
    decreases over, 1int,
{
    match over {
        Json::Object(o) => match base {
            Json::Object(b) => {
                let r = merge_field_vecs(b, o);
                Json::Object(r)
            },
            _ => Json::Object(o),
        },
        other => other,
    }
}

/// Some field of `fs` is named `k`.
pub open spec fn has_field(fs: Seq<(Seq<char>, SpecJson)>, k: Seq<char>) -> bool {
    exists|i: int| 0 <= i < fs.len() && #[trigger] fs[i].0 == k
}

/// What `field_index` finds.
proof fn lemma_field_index(fs: Seq<(Seq<char>, SpecJson)>, k: Seq<char>)
    ensures
        match field_index(fs, k) {
            Some(i) => 0 <= i < fs.len() && fs[i].0 == k && forall|j: int| 0 <= j < i ==> fs[j].0 != k,
            None => !has_field(fs, k),
        },
{
    if exists|i: int| 0 <= i < fs.len() && fs[i].0 == k {
        let w = choose|i: int| 0 <= i < fs.len() && fs[i].0 == k;
        lemma_first_field(fs, k, w);
    }
}

/// Where some field is named `k`, there is a first one.
proof fn lemma_first_field(fs: Seq<(Seq<char>, SpecJson)>, k: Seq<char>, w: int)
    requires
        0 <= w < fs.len(),
        fs[w].0 == k,
    ensures
        exists|i: int|
            0 <= i < fs.len() && fs[i].0 == k && forall|j: int| 0 <= j < i ==> fs[j].0 != k,
    decreases w,
{
    if exists|j: int| 0 <= j < w && fs[j].0 == k {
        let v = choose|j: int| 0 <= j < w && fs[j].0 == k;
        lemma_first_field(fs, k, v);
    }
}

/// One step of a merge keeps the names of `b1` and adds `kk`.
proof fn lemma_merge_step_keys(b1: Seq<(Seq<char>, SpecJson)>, kk: Seq<char>, v: SpecJson, k: Seq<char>)
    ensures
        ({
            let r = match field_index(b1, kk) {
                Some(i) => b1.update(i, (kk, merge_json(b1[i].1, v))),
                None => b1.push((kk, v)),
            };
            has_field(r, k) <==> has_field(b1, k) || k == kk
        }),
{
    lemma_field_index(b1, kk);
    match field_index(b1, kk) {
        Some(i) => {
            let r = b1.update(i, (kk, merge_json(b1[i].1, v)));
            if has_field(b1, k) {
                let m = choose|m: int| 0 <= m < b1.len() && #[trigger] b1[m].0 == k;
                assert(r[m].0 == k);
            }
            if has_field(r, k) {
                let m = choose|m: int| 0 <= m < r.len() && #[trigger] r[m].0 == k;
                if m != i {
                    assert(b1[m].0 == k);
                }
            }
            if k == kk {
                assert(r[i].0 == k);
            }
        },
        None => {
            let r = b1.push((kk, v));
            if has_field(b1, k) {
                let m = choose|m: int| 0 <= m < b1.len() && #[trigger] b1[m].0 == k;
                assert(r[m].0 == k);
            }
            if has_field(r, k) {
                let m = choose|m: int| 0 <= m < r.len() && #[trigger] r[m].0 == k;
                if m < b1.len() {
                    assert(b1[m].0 == k);
                }
            }
            if k == kk {
                assert(r[b1.len() as int].0 == k);
            }
        },
    }
}

/// A merge keeps every field name of both sides and adds no other: `k`
/// names a field of the merged object exactly when it names one of `b` or
/// of `o`.
pub proof fn lemma_merge_fields_keys(
    b: Seq<(Seq<char>, SpecJson)>,
    o: Seq<(Seq<char>, SpecJson)>,
    k: Seq<char>,
)
    ensures
        has_field(merge_fields(b, o), k) <==> has_field(b, k) || has_field(o, k),
    decreases o.len(),
{
    if o.len() > 0 {
        let ol = o.drop_last();
        lemma_merge_fields_keys(b, ol, k);
        lemma_merge_step_keys(merge_fields(b, ol), o.last().0, o.last().1, k);
        if has_field(o, k) {
            let i = choose|i: int| 0 <= i < o.len() && #[trigger] o[i].0 == k;
            if i < o.len() - 1 {
                assert(ol[i].0 == k);
            }
        }
        if has_field(ol, k) {
            let i = choose|i: int| 0 <= i < ol.len() && #[trigger] ol[i].0 == k;
            assert(o[i].0 == k);
        }
        if k == o.last().0 {
            assert(o[o.len() - 1].0 == k);
        }
    }
}

/// The first field named `k` is found where it is.
proof fn lemma_field_index_at(fs: Seq<(Seq<char>, SpecJson)>, k: Seq<char>, i: int)
    requires
        0 <= i < fs.len(),
        fs[i].0 == k,
        forall|j: int| 0 <= j < i ==> fs[j].0 != k,
    ensures
        field_index(fs, k) == Some(i),
{
    assert(exists|m: int| 0 <= m < fs.len() && fs[m].0 == k);
    let c = choose|m: int| 0 <= m < fs.len() && fs[m].0 == k && forall|j: int| 0 <= j < m ==> fs[j].0 != k;
    lemma_first_field(fs, k, i);
    if c < i {
        assert(fs[c].0 == k);
    } else if c > i {
        assert(fs[i].0 != k);
    }
}

/// Fields renamed nowhere, with every field named `k` unchanged and no new
/// field named `k`, leave the first field named `k` where it was.
proof fn lemma_names_kept(b1: Seq<(Seq<char>, SpecJson)>, r: Seq<(Seq<char>, SpecJson)>, k: Seq<char>)
    requires
        b1.len() <= r.len(),
        forall|m: int| 0 <= m < b1.len() ==> #[trigger] r[m].0 == b1[m].0,
        forall|m: int| 0 <= m < b1.len() && b1[m].0 == k ==> #[trigger] r[m] == b1[m],
        forall|m: int| b1.len() <= m < r.len() ==> #[trigger] r[m].0 != k,
    ensures
        field_index(r, k) == field_index(b1, k),
        field_index(b1, k) matches Some(i) ==> r[i] == b1[i],
{
    lemma_field_index(b1, k);
    lemma_field_index(r, k);
    match field_index(b1, k) {
        Some(i) => {
            match field_index(r, k) {
                Some(c) => {
                    if c < i {
                        assert(r[c].0 == b1[c].0);
                    } else if c > i {
                        assert(r[i].0 == b1[i].0);
                    }
                },
                None => {
                    assert(r[i].0 == b1[i].0);
                },
            }
        },
        None => {
            match field_index(r, k) {
                Some(c) => {
                    if c < b1.len() {
                        assert(r[c].0 == b1[c].0);
                        assert(has_field(b1, k));
                    }
                },
                None => {},
            }
        },
    }
}

/// One merge step for the name `kk` leaves the first field of any other
/// name where it was, with its value.
proof fn lemma_merge_step_keeps_other(b1: Seq<(Seq<char>, SpecJson)>, kk: Seq<char>, v: SpecJson, k: Seq<char>)
    requires
        k != kk,
    ensures
        ({
            let r = match field_index(b1, kk) {
                Some(i) => b1.update(i, (kk, merge_json(b1[i].1, v))),
                None => b1.push((kk, v)),
            };
            &&& field_index(r, k) == field_index(b1, k)
            &&& field_index(b1, k) matches Some(i) ==> r[i] == b1[i]
        }),
{
    lemma_field_index(b1, kk);
    match field_index(b1, kk) {
        Some(i) => {
            let x = merge_json(b1[i].1, v);
            let r = b1.update(i, (kk, x));
            assert forall|m: int| 0 <= m < b1.len() implies #[trigger] r[m].0 == b1[m].0 by {
            }
            lemma_names_kept(b1, r, k);
        },
        None => {
            let r = b1.push((kk, v));
            assert forall|m: int| 0 <= m < b1.len() implies #[trigger] r[m].0 == b1[m].0 by {
            }
            lemma_names_kept(b1, r, k);
        },
    }
}

/// A field the overriding object does not name keeps its value from the
/// base: absent keys keep the base value.
pub proof fn lemma_merge_keeps_unnamed(b: Seq<(Seq<char>, SpecJson)>, o: Seq<(Seq<char>, SpecJson)>, k: Seq<char>)
    requires
        !has_field(o, k),
    ensures
        field_index(merge_fields(b, o), k) == field_index(b, k),
        field_index(b, k) matches Some(i) ==> merge_fields(b, o)[i] == b[i],
    decreases o.len(),
{
    if o.len() > 0 {
        let ol = o.drop_last();
        assert(!has_field(ol, k)) by {
            if has_field(ol, k) {
                let i = choose|i: int| 0 <= i < ol.len() && #[trigger] ol[i].0 == k;
                assert(o[i].0 == k);
            }
        }
        assert(o.last().0 != k) by {
            if o.last().0 == k {
                assert(o[o.len() - 1].0 == k);
            }
        }
        lemma_merge_keeps_unnamed(b, ol, k);
        lemma_merge_step_keeps_other(merge_fields(b, ol), o.last().0, o.last().1, k);
    }
}

/// A field of the overriding object whose value is not an object replaces
/// the base's value: scalars and arrays replace.
pub proof fn lemma_merge_scalar_replaces(
    b: Seq<(Seq<char>, SpecJson)>,
    o: Seq<(Seq<char>, SpecJson)>,
    j: int,
)
    requires
        0 <= j < o.len(),
        forall|x: int, y: int| 0 <= x < y < o.len() ==> o[x].0 != o[y].0,
        !(o[j].1 is Object),
    ensures
        match field_index(merge_fields(b, o), o[j].0) {
            Some(i) => merge_fields(b, o)[i].1 == o[j].1,
            None => false,
        },
    decreases o.len(),
{
    let k = o[j].0;
    let ol = o.drop_last();
    let b1 = merge_fields(b, ol);
    lemma_field_index(b1, k);
    if j == o.len() - 1 {
        match field_index(b1, k) {
            Some(i) => {
                let r = b1.update(i, (k, merge_json(b1[i].1, o[j].1)));
                assert forall|m: int| 0 <= m < i implies r[m].0 != k by {
                    let c = choose|m: int| 0 <= m < b1.len() && b1[m].0 == k && forall|x: int| 0 <= x < m ==> b1[x].0 != k;
                    assert(c == i);
                    assert(r[m] == b1[m]);
                }
                lemma_field_index_at(r, k, i);
            },
            None => {
                let r = b1.push((k, o[j].1));
                assert forall|m: int| 0 <= m < b1.len() implies r[m].0 != k by {
                    assert(r[m] == b1[m]);
                    if b1[m].0 == k {
                        assert(has_field(b1, k));
                    }
                }
                lemma_field_index_at(r, k, b1.len() as int);
            },
        }
    } else {
        assert forall|x: int, y: int| 0 <= x < y < ol.len() implies ol[x].0 != ol[y].0 by {
            assert(ol[x] == o[x] && ol[y] == o[y]);
        }
        assert(ol[j] == o[j]);
        lemma_merge_scalar_replaces(b, ol, j);
        assert(o.last().0 != k) by {
            assert(o[o.len() - 1].0 != o[j].0);
        }
        lemma_merge_step_keeps_other(b1, o.last().0, o.last().1, k);
    }
}

/// Deep-merges `over` into `base`: objects merge recursively per key, any
/// other value replaces.
pub fn deep_merge_json(base: &mut Json, over: Json)
    ensures
        final(base)@ == merge_json(old(base)@, over@),
{
    let mut b = Json::Null;
    std::mem::swap(&mut b, base);
    *base = merged(b, over);
}


/// The names of the fields of `f` that `k` lacks, in order.
pub open spec fn missing_keys(f: Seq<(Seq<char>, SpecJson)>, k: Seq<(Seq<char>, SpecJson)>) -> Seq<Seq<char>>
    decreases f.len(),
{
    if f.len() == 0 {
        Seq::empty()
    } else {
        let r = missing_keys(f.drop_last(), k);
        if has_field(k, f.last().0) {
            r
        } else {
            r.push(f.last().0)
        }
    }
}

/// The top-level keys of a configuration file that the configuration does
/// not know: those of `file` missing from `known`, the configuration as it
/// serializes. Nothing when either is not an object.
pub open spec fn spec_unknown_keys(file: SpecJson, known: SpecJson) -> Seq<Seq<char>> {
    match (file, known) {
        (SpecJson::Object(f), SpecJson::Object(k)) => missing_keys(f, k),
        _ => Seq::empty(),
    }
}

/// The top-level keys of `file` that `known` lacks.
pub fn unknown_keys(file: &Json, known: &Json) -> (r: Vec<String>)
    ensures
        crate::text::views(r@) == spec_unknown_keys(file@, known@),
{
    match (file, known) {
        (Json::Object(f), Json::Object(k)) => {
            proof {
                lemma_fields_view(f@);
                lemma_fields_view(k@);
            }
            let ghost fv = fields_view(f@);
            let ghost kv = fields_view(k@);
            let mut out: Vec<String> = Vec::new();
            let mut i: usize = 0;
            proof {
                assert(fv.take(0) =~= Seq::<(Seq<char>, SpecJson)>::empty());
                assert(crate::text::views(out@) =~= Seq::<Seq<char>>::empty());
            }
            while i < f.len()
                invariant
                    fv == fields_view(f@),
                    kv == fields_view(k@),
                    fv.len() == f@.len(),
                    kv.len() == k@.len(),
                    forall|x: int| 0 <= x < f@.len() ==> #[trigger] fv[x] == (f@[x].0@, f@[x].1@),
                    forall|x: int| 0 <= x < k@.len() ==> #[trigger] kv[x] == (k@[x].0@, k@[x].1@),
                    0 <= i <= f@.len(),
                    crate::text::views(out@) == missing_keys(fv.take(i as int), kv),
                decreases f@.len() - i,
            {
                proof {
                    assert(fv.take(i + 1).drop_last() =~= fv.take(i as int));
                    assert(fv.take(i + 1).last() == fv[i as int]);
                }
                let key = f[i].0.as_str();
                let mut j: usize = 0;
                let mut found = false;
                while j < k.len()
                    invariant
                        kv == fields_view(k@),
                        kv.len() == k@.len(),
                        forall|x: int| 0 <= x < k@.len() ==> #[trigger] kv[x] == (k@[x].0@, k@[x].1@),
                        0 <= j <= k@.len(),
                        found ==> has_field(kv, key@),
                        !found ==> forall|x: int| 0 <= x < j ==> kv[x].0 != key@,
                    decreases k@.len() - j,
                {
                    if str_eq(k[j].0.as_str(), key) {
                        assert(kv[j as int].0 == key@);
                        found = true;
                    }
                    j = j + 1;
                }
                if !found {
                    let ghost before = out@;
                    out.push(f[i].0.clone());
                    proof {
                        assert(crate::text::views(out@) =~= crate::text::views(before).push(key@));
                    }
                }
                i = i + 1;
            }
            proof {
                assert(fv.take(f@.len() as int) =~= fv);
            }
            out
        },
        _ => {
            let out: Vec<String> = Vec::new();
            assert(crate::text::views(out@) =~= Seq::<Seq<char>>::empty());
            out
        },
    }
}

} // verus!
