//! Attribute values and their deep merge.
use vstd::prelude::*;

verus! {

/// A JSON value as attribute files hold it. A number is kept as its JSON
/// text; an object as its entries, each key at most once.
#[derive(Debug)]
pub enum JsonValue {
    Null,
    Bool(bool),
    Number(String),
    String(String),
    Array(Vec<JsonValue>),
    Object(Vec<(String, JsonValue)>),
}

/// The mathematical value of a `JsonValue`.
pub enum Json {
    Null,
    Bool(bool),
    Number(Seq<char>),
    Str(Seq<char>),
    Array(Seq<Json>),
    Object(Seq<(Seq<char>, Json)>),
}

/// The value that `v` holds.
pub open spec fn json_of(v: JsonValue) -> Json
    decreases v,
{
    match v {
        JsonValue::Null => Json::Null,
        JsonValue::Bool(b) => Json::Bool(b),
        JsonValue::Number(n) => Json::Number(n@),
        JsonValue::String(s) => Json::Str(s@),
        JsonValue::Array(items) => Json::Array(
            Seq::new(
                items@.len(),
                |i: int|
                    if 0 <= i < items@.len() {
                        json_of(items@[i])
                    } else {
                        Json::Null
                    },
            ),
        ),
        JsonValue::Object(entries) => Json::Object(
            Seq::new(
                entries@.len(),
                |i: int|
                    if 0 <= i < entries@.len() {
                        (entries@[i].0@, json_of(entries@[i].1))
                    } else {
                        (Seq::empty(), Json::Null)
                    },
            ),
        ),
    }
}

/// The entries of an object, as keys and values.
pub open spec fn entries_of(e: Seq<(String, JsonValue)>) -> Seq<(Seq<char>, Json)> {
    Seq::new(e.len(), |i: int| (e[i].0@, json_of(e[i].1)))
}

/// Index of the first entry with key `k`, or -1.
pub open spec fn find_key(e: Seq<(Seq<char>, Json)>, k: Seq<char>) -> int
    decreases e.len(),
{
    if e.len() == 0 {
        -1
    } else {
        let i = find_key(e.drop_last(), k);
        if i >= 0 {
            i
        } else if e.last().0 == k {
            e.len() - 1
        } else {
            -1
        }
    }
}

/// No key occurs twice among the entries.
pub open spec fn keys_unique(e: Seq<(Seq<char>, Json)>) -> bool {
    forall|i: int, j: int| 0 <= i < j < e.len() ==> e[i].0 != e[j].0
}

/// Every object within `j`, `j` included, has each key at most once.
pub open spec fn wf_json(j: Json) -> bool
    decreases j,
{
    match j {
        Json::Array(items) => forall|i: int| 0 <= i < items.len() ==> wf_json(items[i]),
        Json::Object(e) => keys_unique(e) && forall|i: int| 0 <= i < e.len() ==> wf_json(e[i].1),
        _ => true,
    }
}

/// Deep merge of `b` into `a`: where both are objects, each entry of `b` is
/// merged into the entry of `a` with its key, or added after `a`'s entries;
/// otherwise `b` replaces `a`.
pub open spec fn merge_json(a: Json, b: Json) -> Json
    decreases b,
{
    match b {
        Json::Object(be) => match a {
            Json::Object(ae) => Json::Object(merge_entries(ae, be, be.len())),
            _ => b,
        },
        _ => b,
    }
}

/// The first `n` entries of `be` merged, in order, into the entries `acc`.
pub open spec fn merge_entries(acc: Seq<(Seq<char>, Json)>, be: Seq<(Seq<char>, Json)>, n: nat) -> Seq<
    (Seq<char>, Json),
>
    decreases be, n,
{
    if n == 0 || n > be.len() {
        acc
    } else {
        let prev = merge_entries(acc, be, (n - 1) as nat);
        let k = be[n - 1].0;
        let i = find_key(prev, k);
        if i >= 0 {
            prev.update(i, (k, merge_json(prev[i].1, be[n - 1].1)))
        } else {
            prev.push((k, be[n - 1].1))
        }
    }
}

proof fn lemma_find_key(e: Seq<(Seq<char>, Json)>, k: Seq<char>)
    ensures
        -1 <= find_key(e, k) < e.len(),
        find_key(e, k) >= 0 ==> e[find_key(e, k)].0 == k,
        forall|i: int| 0 <= i < find_key(e, k) ==> e[i].0 != k,
        find_key(e, k) < 0 ==> forall|i: int| 0 <= i < e.len() ==> e[i].0 != k,
    decreases e.len(),
{
    if e.len() > 0 {
        lemma_find_key(e.drop_last(), k);
        assert forall|i: int| 0 <= i < e.len() - 1 implies e[i] == e.drop_last()[i] by {}
    }
}

proof fn lemma_find_key_update(e: Seq<(Seq<char>, Json)>, i: int, x: Json, k: Seq<char>)
    requires
        0 <= i < e.len(),
    ensures
        find_key(e.update(i, (e[i].0, x)), k) == find_key(e, k),
    decreases e.len(),
{
    let u = e.update(i, (e[i].0, x));
    if i < e.len() - 1 {
        assert(u.drop_last() =~= e.drop_last().update(i, (e[i].0, x)));
        lemma_find_key_update(e.drop_last(), i, x, k);
    } else {
        assert(u.drop_last() =~= e.drop_last());
    }
}

proof fn lemma_find_key_push(e: Seq<(Seq<char>, Json)>, p: (Seq<char>, Json), k: Seq<char>)
    ensures
        find_key(e, k) >= 0 ==> find_key(e.push(p), k) == find_key(e, k),
        find_key(e, k) < 0 && p.0 == k ==> find_key(e.push(p), k) == e.len(),
{
    assert(e.push(p).drop_last() =~= e);
}

pub(crate) proof fn lemma_find_key_unique(e: Seq<(Seq<char>, Json)>, j: int)
    requires
        keys_unique(e),
        0 <= j < e.len(),
    ensures
        find_key(e, e[j].0) == j,
    decreases e.len(),
{
    lemma_find_key(e.drop_last(), e[j].0);
    if j < e.len() - 1 {
        lemma_find_key_unique(e.drop_last(), j);
    }
}

/// After the first `n` entries of `be` are merged into `acc`, each of their
/// keys is present, and merging that entry's value again changes nothing.
proof fn lemma_entries_fixpoint(acc: Seq<(Seq<char>, Json)>, be: Seq<(Seq<char>, Json)>, n: nat)
    requires
        n <= be.len(),
        keys_unique(be),
        forall|i: int| 0 <= i < be.len() ==> wf_json(#[trigger] be[i].1),
    ensures
        forall|j: int|
            0 <= j < n ==> {
                let r = merge_entries(acc, be, n);
                let i = find_key(r, #[trigger] be[j].0);
                i >= 0 && merge_json(r[i].1, be[j].1) == r[i].1
            },
    decreases be, n,
{
    if n > 0 {
        let prev = merge_entries(acc, be, (n - 1) as nat);
        let r = merge_entries(acc, be, n);
        let k = be[n - 1].0;
        let v = be[n - 1].1;
        lemma_entries_fixpoint(acc, be, (n - 1) as nat);
        let i = find_key(prev, k);
        lemma_find_key(prev, k);
        if i >= 0 {
            lemma_merge_idempotent(prev[i].1, v);
            lemma_find_key_update(prev, i, merge_json(prev[i].1, v), k);
            assert(r == prev.update(i, (prev[i].0, merge_json(prev[i].1, v))));
            assert forall|j: int| 0 <= j < n implies {
                let ij = find_key(r, #[trigger] be[j].0);
                ij >= 0 && merge_json(r[ij].1, be[j].1) == r[ij].1
            } by {
                lemma_find_key_update(prev, i, merge_json(prev[i].1, v), be[j].0);
                if j < n - 1 {
                    lemma_find_key(prev, be[j].0);
                    assert(be[j].0 != k);
                }
            }
        } else {
            lemma_merge_idempotent(Json::Null, v);
            assert(merge_json(Json::Null, v) == v);
            lemma_find_key_push(prev, (k, v), k);
            assert(r == prev.push((k, v)));
            assert forall|j: int| 0 <= j < n implies {
                let ij = find_key(r, #[trigger] be[j].0);
                ij >= 0 && merge_json(r[ij].1, be[j].1) == r[ij].1
            } by {
                lemma_find_key_push(prev, (k, v), be[j].0);
                if j < n - 1 {
                    let ij = find_key(prev, be[j].0);
                    assert(ij >= 0);
                    lemma_find_key(prev, be[j].0);
                    assert(r[ij] == prev[ij]);
                } else {
                    assert(r[prev.len() as int] == (k, v));
                }
            }
        }
    }
}

/// Merging entries each of whose keys is present with a value that they
/// leave unchanged changes nothing.
proof fn lemma_entries_stable(r: Seq<(Seq<char>, Json)>, be: Seq<(Seq<char>, Json)>, n: nat)
    requires
        n <= be.len(),
        forall|j: int|
            0 <= j < be.len() ==> {
                let i = find_key(r, #[trigger] be[j].0);
                i >= 0 && merge_json(r[i].1, be[j].1) == r[i].1
            },
    ensures
        merge_entries(r, be, n) == r,
    decreases n,
{
    if n > 0 {
        lemma_entries_stable(r, be, (n - 1) as nat);
        let k = be[n - 1].0;
        lemma_find_key(r, k);
        let i = find_key(r, k);
        assert(r.update(i, (k, merge_json(r[i].1, be[n - 1].1))) =~= r);
    }
}

/// Merging the same value twice is merging it once.
pub proof fn lemma_merge_idempotent(y: Json, v: Json)
    requires
        wf_json(v),
    ensures
        merge_json(merge_json(y, v), v) == merge_json(y, v),
    decreases v,
{
    match v {
        Json::Object(be) => {
            assert forall|j: int| 0 <= j < be.len() implies merge_json(
                #[trigger] be[j].1,
                be[j].1,
            ) == be[j].1 by {
                lemma_merge_idempotent(Json::Null, be[j].1);
            }
            match y {
                Json::Object(ae) => {
                    lemma_entries_fixpoint(ae, be, be.len());
                    lemma_entries_stable(merge_entries(ae, be, be.len()), be, be.len());
                },
                _ => {
                    assert forall|j: int| 0 <= j < be.len() implies {
                        let i = find_key(be, #[trigger] be[j].0);
                        i >= 0 && merge_json(be[i].1, be[j].1) == be[i].1
                    } by {
                        lemma_find_key_unique(be, j);
                    }
                    lemma_entries_stable(be, be, be.len());
                },
            }
        },
        _ => {},
    }
}

proof fn lemma_entries_of_update(e: Seq<(String, JsonValue)>, i: int, p: (String, JsonValue))
    requires
        0 <= i < e.len(),
    ensures
        entries_of(e.remove(i).insert(i, p)) == entries_of(e).update(i, (p.0@, json_of(p.1))),
{
    assert(entries_of(e.remove(i).insert(i, p)) =~= entries_of(e).update(i, (p.0@, json_of(p.1))));
}

pub(crate) proof fn lemma_json_of_object(e: Vec<(String, JsonValue)>)
    ensures
        json_of(JsonValue::Object(e)) == Json::Object(entries_of(e@)),
{
    let j = json_of(JsonValue::Object(e));
    let s = j->Object_0;
    assert(s.len() == e@.len());
    assert forall|i: int| 0 <= i < e@.len() implies s[i] == entries_of(e@)[i] by {}
    assert(s =~= entries_of(e@));
}

pub(crate) proof fn lemma_json_of_array(items: Vec<JsonValue>)
    ensures
        json_of(JsonValue::Array(items)) == Json::Array(
            Seq::new(items@.len(), |i: int| json_of(items@[i])),
        ),
{
    let j = json_of(JsonValue::Array(items));
    let s = j->Array_0;
    assert(s.len() == items@.len());
    assert(s =~= Seq::new(items@.len(), |i: int| json_of(items@[i])));
}

/// A copy of `v`, all the way down.
pub fn copy_json(v: &JsonValue) -> (r: JsonValue)
    ensures
        json_of(r) == json_of(*v),
    decreases v,
{
    match v {
        JsonValue::Null => JsonValue::Null,
        JsonValue::Bool(b) => JsonValue::Bool(*b),
        JsonValue::Number(n) => JsonValue::Number(n.clone()),
        JsonValue::String(t) => JsonValue::String(t.clone()),
        JsonValue::Array(items) => {
            let mut out: Vec<JsonValue> = Vec::new();
            let mut i: usize = 0;
            while i < items.len()
                invariant
                    0 <= i <= items@.len(),
                    *v == JsonValue::Array(*items),
                    out@.len() == i,
                    forall|j: int| 0 <= j < i ==> json_of(#[trigger] out@[j]) == json_of(items@[j]),
                decreases items@.len() - i,
            {
                proof {
                    assert(decreases_to!(*v => (*v)->Array_0));
                    assert(decreases_to!(*items => items@));
                    assert(decreases_to!(items@ => items@[i as int]));
                }
                out.push(copy_json(&items[i]));
                i += 1;
            }
            proof {
                lemma_json_of_array(out);
                lemma_json_of_array(*items);
                assert(Seq::new(out@.len(), |i: int| json_of(out@[i])) =~= Seq::new(
                    items@.len(),
                    |i: int| json_of(items@[i]),
                ));
            }
            JsonValue::Array(out)
        },
        JsonValue::Object(entries) => {
            let mut out: Vec<(String, JsonValue)> = Vec::new();
            let mut i: usize = 0;
            while i < entries.len()
                invariant
                    0 <= i <= entries@.len(),
                    *v == JsonValue::Object(*entries),
                    out@.len() == i,
                    forall|j: int|
                        0 <= j < i ==> (#[trigger] out@[j]).0@ == entries@[j].0@ && json_of(
                            out@[j].1,
                        ) == json_of(entries@[j].1),
                decreases entries@.len() - i,
            {
                let k = entries[i].0.clone();
                proof {
                    assert(decreases_to!(*v => (*v)->Object_0));
                    assert(decreases_to!(*entries => entries@));
                    assert(decreases_to!(entries@ => entries@[i as int]));
                    assert(decreases_to!(entries@[i as int] => entries@[i as int].1));
                }
                let x = copy_json(&entries[i].1);
                out.push((k, x));
                i += 1;
            }
            proof {
                lemma_json_of_object(out);
                lemma_json_of_object(*entries);
                assert(entries_of(out@) =~= entries_of(entries@));
            }
            JsonValue::Object(out)
        },
    }
}

/// Whether `a` and `b` hold the same value.
pub fn json_eq(a: &JsonValue, b: &JsonValue) -> (r: bool)
    ensures
        r == (json_of(*a) == json_of(*b)),
    decreases a,
{
    match (a, b) {
        (JsonValue::Null, JsonValue::Null) => true,
        (JsonValue::Array(x), JsonValue::Object(y)) => {
            proof {
                lemma_json_of_array(*x);
                lemma_json_of_object(*y);
            }
            false
        },
        (JsonValue::Object(x), JsonValue::Array(y)) => {
            proof {
                lemma_json_of_object(*x);
                lemma_json_of_array(*y);
            }
            false
        },
        (JsonValue::Bool(x), JsonValue::Bool(y)) => *x == *y,
        (JsonValue::Number(x), JsonValue::Number(y)) => {
            *x == *y
        },
        (JsonValue::String(x), JsonValue::String(y)) => {
            *x == *y
        },
        (JsonValue::Array(x), JsonValue::Array(y)) => {
            proof {
                lemma_json_of_array(*x);
                lemma_json_of_array(*y);
            }
            let ghost sx = Seq::new(x@.len(), |i: int| json_of(x@[i]));
            let ghost sy = Seq::new(y@.len(), |i: int| json_of(y@[i]));
            if x.len() != y.len() {
                assert(sx.len() != sy.len());
                return false;
            }
            let mut i: usize = 0;
            while i < x.len()
                invariant
                    0 <= i <= x@.len(),
                    x@.len() == y@.len(),
                    *a == JsonValue::Array(*x),
                    json_of(*a) == Json::Array(sx),
                    json_of(*b) == Json::Array(sy),
                    sx == Seq::new(x@.len(), |i: int| json_of(x@[i])),
                    sy == Seq::new(y@.len(), |i: int| json_of(y@[i])),
                    forall|j: int| 0 <= j < i ==> sx[j] == sy[j],
                decreases x@.len() - i,
            {
                proof {
                    assert(decreases_to!(*a => (*a)->Array_0));
                    assert(decreases_to!(*x => x@));
                    assert(decreases_to!(x@ => x@[i as int]));
                }
                if !json_eq(&x[i], &y[i]) {
                    assert(sx[i as int] != sy[i as int]);
                    return false;
                }
                i += 1;
            }
            assert(sx =~= sy);
            true
        },
        (JsonValue::Object(x), JsonValue::Object(y)) => {
            proof {
                lemma_json_of_object(*x);
                lemma_json_of_object(*y);
            }
            let ghost sx = entries_of(x@);
            let ghost sy = entries_of(y@);
            if x.len() != y.len() {
                assert(sx.len() != sy.len());
                return false;
            }
            let mut i: usize = 0;
            while i < x.len()
                invariant
                    0 <= i <= x@.len(),
                    x@.len() == y@.len(),
                    *a == JsonValue::Object(*x),
                    json_of(*a) == Json::Object(sx),
                    json_of(*b) == Json::Object(sy),
                    sx == entries_of(x@),
                    sy == entries_of(y@),
                    forall|j: int| 0 <= j < i ==> sx[j] == sy[j],
                decreases x@.len() - i,
            {
                proof {
                    assert(decreases_to!(*a => (*a)->Object_0));
                    assert(decreases_to!(*x => x@));
                    assert(decreases_to!(x@ => x@[i as int]));
                    assert(decreases_to!(x@[i as int] => x@[i as int].1));
                }
                if x[i].0 != y[i].0 || !json_eq(&x[i].1, &y[i].1) {
                    assert(sx[i as int] != sy[i as int]);
                    return false;
                }
                i += 1;
            }
            assert(sx =~= sy);
            true
        },
        _ => false,
    }
}

/// Index of the first entry of `entries` with key `k`.
pub(crate) fn find_entry(entries: &Vec<(String, JsonValue)>, k: &String) -> (r: Option<usize>)
    ensures
        match r {
            Some(i) => i < entries@.len() && i == find_key(entries_of(entries@), k@),
            None => find_key(entries_of(entries@), k@) < 0,
        },
{
    let ghost e = entries_of(entries@);
    proof {
        lemma_find_key(e, k@);
    }
    let mut i: usize = 0;
    while i < entries.len()
        invariant
            0 <= i <= entries@.len(),
            e == entries_of(entries@),
            forall|j: int| 0 <= j < i ==> e[j].0 != k@,
        decreases entries@.len() - i,
    {
        if entries[i].0 == *k {
            proof {
                assert(e[i as int].0 == k@);
                lemma_find_key(e, k@);
            }
            return Some(i);
        }
        i += 1;
    }
    proof {
        lemma_find_key(e, k@);
    }
    None
}

/// `a` merged with `b` as `merge_json` says.
fn merge_owned(a: JsonValue, b: &JsonValue) -> (r: JsonValue)
    ensures
        json_of(r) == merge_json(json_of(a), json_of(*b)),
    decreases b,
{
    match b {
        JsonValue::Object(be) => match a {
            JsonValue::Object(ae) => {
                let mut ae = ae;
                let ghost a0 = entries_of(ae@);
                let ghost bs = entries_of(be@);
                proof {
                    lemma_json_of_object(ae);
                    lemma_json_of_object(*be);
                }
                let mut j: usize = 0;
                while j < be.len()
                    invariant
                        0 <= j <= be@.len(),
                        *b == JsonValue::Object(*be),
                        json_of(*b) == Json::Object(bs),
                        bs == entries_of(be@),
                        entries_of(ae@) == merge_entries(a0, bs, j as nat),
                    decreases be@.len() - j,
                {
                    let ghost prev = entries_of(ae@);
                    match find_entry(&ae, &be[j].0) {
                        Some(i) => {
                            proof {
                                lemma_find_key(prev, bs[j as int].0);
                            }
                            let (kk, old) = ae.remove(i);
                            proof {
                                assert(decreases_to!(*b => (*b)->Object_0));
                                assert(decreases_to!(*be => be@));
                                assert(decreases_to!(be@ => be@[j as int]));
                                assert(decreases_to!(be@[j as int] => be@[j as int].1));
                            }
                            let nv = merge_owned(old, &be[j].1);
                            ae.insert(i, (kk, nv));
                            proof {
                                lemma_entries_of_update(ae@.remove(i as int).insert(i as int, (kk, nv)), 0, (kk, nv));
                            }
                            assert(entries_of(ae@) =~= prev.update(
                                i as int,
                                (bs[j as int].0, merge_json(prev[i as int].1, bs[j as int].1)),
                            ));
                        },
                        None => {
                            let k = be[j].0.clone();
                            let x = copy_json(&be[j].1);
                            ae.push((k, x));
                            assert(entries_of(ae@) =~= prev.push((bs[j as int].0, bs[j as int].1)));
                        },
                    }
                    j += 1;
                }
                proof {
                    lemma_json_of_object(ae);
                }
                JsonValue::Object(ae)
            },
            _ => copy_json(b),
        },
        _ => copy_json(b),
    }
}

/// Merges `b` into `a`: where both are objects each entry of `b` is merged
/// into the entry of `a` with its key, or added; otherwise `b` replaces `a`.
/// A `null` in `b` is a value like any other, not a deletion.
pub fn merge(a: &mut JsonValue, b: &JsonValue)
    ensures
        json_of(*final(a)) == merge_json(json_of(*old(a)), json_of(*b)),
{
    let mut taken = JsonValue::Null;
    core::mem::swap(a, &mut taken);
    *a = merge_owned(taken, b);
}

/// Merging an empty object into an object changes nothing.
pub proof fn lemma_merge_empty(a: Json)
    requires
        a is Object,
    ensures
        merge_json(a, Json::Object(Seq::empty())) == a,
{
}

} // verus!
