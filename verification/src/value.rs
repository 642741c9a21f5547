//! The value tree that configuration objects, attribute parameters and enum
//! variants are made of, together with its mathematical model and the ordered
//! key/value maps the pipeline stores it in.
//!
//! Objects are stored as ordered sequences of key/value pairs so that source
//! order is preserved end-to-end; inserting an existing key replaces the value
//! in place, so the later occurrence wins while the key keeps its position.

use vstd::prelude::*;

verus! {

/// Mathematical model of a schema value: the same tree over `Seq` and `char`.
pub enum SpecValue {
    Null,
    Bool(bool),
    /// A numeric literal, kept as its decimal source text.
    Num(Seq<char>),
    Str(Seq<char>),
    Arr(Seq<SpecValue>),
    Obj(Seq<(Seq<char>, SpecValue)>),
}

/// A schema value: null, boolean, numeric literal (kept as its decimal source
/// text), string, array, or object with source-ordered keys.
#[derive(Debug)]
pub enum Value {
    Null,
    Bool(bool),
    Num(String),
    Str(String),
    Arr(Vec<Value>),
    Obj(Vec<(String, Value)>),
}

/// The model of a sequence of array elements.
pub open spec fn arr_view(a: Seq<Value>) -> Seq<SpecValue>
    decreases a,
{
    Seq::new(a.len(), |i: int| if 0 <= i < a.len() {
        a[i].view()
    } else {
        SpecValue::Null
    })
}

/// The model of a sequence of object entries.
pub open spec fn entries_view(m: Seq<(String, Value)>) -> Seq<(Seq<char>, SpecValue)>
    decreases m,
{
    Seq::new(m.len(), |i: int| if 0 <= i < m.len() {
        (m[i].0@, m[i].1.view())
    } else {
        (Seq::<char>::empty(), SpecValue::Null)
    })
}

impl Value {
    /// The mathematical value this tree stands for.
    pub open spec fn view(self) -> SpecValue
        decreases self,
    {
        match self {
            Value::Null => SpecValue::Null,
            Value::Bool(b) => SpecValue::Bool(b),
            Value::Num(s) => SpecValue::Num(s@),
            Value::Str(s) => SpecValue::Str(s@),
            Value::Arr(a) => SpecValue::Arr(arr_view(a@)),
            Value::Obj(o) => SpecValue::Obj(entries_view(o@)),
        }
    }

    /// Deep copy; the copy stands for the same mathematical value.
    #[verifier::loop_isolation(false)]
    pub fn dup(&self) -> (r: Value)
        ensures
            r.view() == self.view(),
        decreases self,
    {
        match self {
            Value::Null => Value::Null,
            Value::Bool(b) => Value::Bool(*b),
            Value::Num(s) => Value::Num(s.clone()),
            Value::Str(s) => Value::Str(s.clone()),
            Value::Arr(a) => {
                let mut out: Vec<Value> = Vec::new();
                let n = a.len();
                let mut j: usize = 0;
                while j < n
                    invariant
                        n == a.len(),
                        j <= n,
                        out@.len() == j,
                        forall|i: int| 0 <= i < j ==> out@[i].view() == a@[i].view(),
                    decreases n - j,
                {
                    proof {
                        assert(decreases_to!(*self => self->Arr_0));
                        assert(decreases_to!(*a => a@));
                        assert(decreases_to!(a@ => a@[j as int]));
                    }
                    let e = a[j].dup();
                    out.push(e);
                    j += 1;
                }
                proof {
                    assert(arr_view(out@) =~= arr_view(a@));
                }
                Value::Arr(out)
            },
            Value::Obj(o) => {
                let mut out: Vec<(String, Value)> = Vec::new();
                let n = o.len();
                let mut j: usize = 0;
                while j < n
                    invariant
                        n == o.len(),
                        j <= n,
                        out@.len() == j,
                        forall|i: int| 0 <= i < j ==> out@[i].0@ == o@[i].0@ && out@[i].1.view()
                            == o@[i].1.view(),
                    decreases n - j,
                {
                    proof {
                        assert(decreases_to!(*self => self->Obj_0));
                        assert(decreases_to!(*o => o@));
                        assert(decreases_to!(o@ => o@[j as int]));
                        assert(decreases_to!(o@[j as int] => o@[j as int].1));
                    }
                    let key = o[j].0.clone();
                    let e = o[j].1.dup();
                    out.push((key, e));
                    j += 1;
                }
                proof {
                    assert(entries_view(out@) =~= entries_view(o@));
                }
                Value::Obj(out)
            },
        }
    }
}

/// The reference sentinel spelled from a name: the text `${Name}`.
pub open spec fn sentinel_of(name: Seq<char>) -> Seq<char> {
    seq!['$', '{'] + name + seq!['}']
}

/// Whether an ordered map holds the key `k`.
pub open spec fn obj_contains<T>(o: Seq<(Seq<char>, T)>, k: Seq<char>) -> bool {
    exists|i: int| 0 <= i < o.len() && o[i].0 == k
}

/// The value at the first entry whose key is `k` (meaningful only when
/// `obj_contains(o, k)` holds).
pub open spec fn obj_get<T>(o: Seq<(Seq<char>, T)>, k: Seq<char>) -> T
    decreases o.len(),
{
    if o.len() == 0 {
        arbitrary()
    } else if o[0].0 == k {
        o[0].1
    } else {
        obj_get(o.drop_first(), k)
    }
}

/// Ordered-map insertion: an existing key keeps its position and takes the new
/// value (the later occurrence wins); a new key is appended at the end.
pub open spec fn obj_set<T>(o: Seq<(Seq<char>, T)>, k: Seq<char>, v: T) -> Seq<(Seq<char>, T)>
    decreases o.len(),
{
    if o.len() == 0 {
        seq![(k, v)]
    } else if o[0].0 == k {
        seq![(k, v)] + o.drop_first()
    } else {
        seq![o[0]] + obj_set(o.drop_first(), k, v)
    }
}

/// When the first entry with key `k` stands at index `i`, insertion replaces
/// exactly that entry.
pub proof fn lemma_obj_set_found<T>(o: Seq<(Seq<char>, T)>, k: Seq<char>, v: T, i: int)
    requires
        0 <= i < o.len(),
        o[i].0 == k,
        forall|j: int| 0 <= j < i ==> o[j].0 != k,
    ensures
        obj_set(o, k, v) =~= o.update(i, (k, v)),
    decreases o.len(),
{
    if i == 0 {
        assert(obj_set(o, k, v) =~= o.update(0, (k, v)));
    } else {
        lemma_obj_set_found(o.drop_first(), k, v, i - 1);
        assert(obj_set(o, k, v) =~= o.update(i, (k, v)));
    }
}

/// When no entry has key `k`, insertion appends the pair at the end.
pub proof fn lemma_obj_set_missing<T>(o: Seq<(Seq<char>, T)>, k: Seq<char>, v: T)
    requires
        forall|j: int| 0 <= j < o.len() ==> o[j].0 != k,
    ensures
        obj_set(o, k, v) =~= o.push((k, v)),
    decreases o.len(),
{
    if o.len() == 0 {
        assert(obj_set(o, k, v) =~= o.push((k, v)));
    } else {
        lemma_obj_set_missing(o.drop_first(), k, v);
        assert(obj_set(o, k, v) =~= o.push((k, v)));
    }
}

/// After inserting `k -> v`, looking `k` up yields `v`: of two entries that
/// share a key, the one inserted later is the one retained.
pub proof fn lemma_obj_set_get<T>(o: Seq<(Seq<char>, T)>, k: Seq<char>, v: T)
    ensures
        obj_contains(obj_set(o, k, v), k),
        obj_get(obj_set(o, k, v), k) == v,
    decreases o.len(),
{
    if o.len() == 0 {
        assert(obj_set(o, k, v)[0].0 == k);
    } else if o[0].0 == k {
        assert(obj_set(o, k, v)[0].0 == k);
    } else {
        lemma_obj_set_get(o.drop_first(), k, v);
        let s = obj_set(o, k, v);
        assert(s == seq![o[0]] + obj_set(o.drop_first(), k, v));
        let i = choose|i: int| 0 <= i < obj_set(o.drop_first(), k, v).len() && obj_set(
            o.drop_first(),
            k,
            v,
        )[i].0 == k;
        assert(s[i + 1].0 == k);
        assert(s.drop_first() =~= obj_set(o.drop_first(), k, v));
    }
}

/// Inserting `k -> v` leaves every other key's presence and value unchanged.
pub proof fn lemma_obj_set_other<T>(o: Seq<(Seq<char>, T)>, k: Seq<char>, v: T, k2: Seq<char>)
    requires
        k2 != k,
    ensures
        obj_contains(obj_set(o, k, v), k2) == obj_contains(o, k2),
        obj_contains(o, k2) ==> obj_get(obj_set(o, k, v), k2) == obj_get(o, k2),
    decreases o.len(),
{
    let s = obj_set(o, k, v);
    if o.len() == 0 {
        assert(forall|i: int| 0 <= i < s.len() ==> s[i].0 == k);
        assert(!obj_contains(s, k2)) by {
            assert forall|i: int| 0 <= i < s.len() implies s[i].0 != k2 by {}
        }
    } else if o[0].0 == k {
        assert(s =~= seq![(k, v)] + o.drop_first());
        assert(s.drop_first() =~= o.drop_first());
        if obj_contains(o, k2) {
            let i = choose|i: int| 0 <= i < o.len() && o[i].0 == k2;
            assert(i != 0);
            assert(s[i].0 == k2);
            lemma_obj_get_skip_first(o, k2);
            lemma_obj_get_skip_first(s, k2);
        }
        if obj_contains(s, k2) {
            let i = choose|i: int| 0 <= i < s.len() && s[i].0 == k2;
            assert(i != 0);
            assert(o[i].0 == k2);
        }
    } else {
        lemma_obj_set_other(o.drop_first(), k, v, k2);
        assert(s =~= seq![o[0]] + obj_set(o.drop_first(), k, v));
        assert(s.drop_first() =~= obj_set(o.drop_first(), k, v));
        if o[0].0 == k2 {
            assert(s[0].0 == k2);
        } else {
            if obj_contains(o, k2) {
                let i = choose|i: int| 0 <= i < o.len() && o[i].0 == k2;
                assert(i != 0);
                assert(o.drop_first()[i - 1].0 == k2);
                assert(obj_contains(o.drop_first(), k2));
                let j = choose|j: int|
                    0 <= j < obj_set(o.drop_first(), k, v).len() && obj_set(
                        o.drop_first(),
                        k,
                        v,
                    )[j].0 == k2;
                assert(s[j + 1].0 == k2);
                lemma_obj_get_skip_first(o, k2);
                lemma_obj_get_skip_first(s, k2);
            }
            if obj_contains(s, k2) {
                let i = choose|i: int| 0 <= i < s.len() && s[i].0 == k2;
                assert(i != 0);
                assert(obj_set(o.drop_first(), k, v)[i - 1].0 == k2);
                assert(obj_contains(o.drop_first(), k2));
                let j = choose|j: int|
                    0 <= j < o.drop_first().len() && o.drop_first()[j].0 == k2;
                assert(o[j + 1].0 == k2);
            }
        }
    }
}

/// After inserting `k`, a map holds exactly its old keys and `k`.
pub proof fn lemma_obj_set_contains<T>(o: Seq<(Seq<char>, T)>, k: Seq<char>, v: T, n: Seq<char>)
    ensures
        obj_contains(obj_set(o, k, v), n) == (obj_contains(o, n) || k == n),
{
    if k == n {
        lemma_obj_set_get(o, k, v);
    } else {
        lemma_obj_set_other(o, k, v, n);
    }
}

/// Looking up a key that the first entry does not carry skips that entry.
pub proof fn lemma_obj_get_skip_first<T>(o: Seq<(Seq<char>, T)>, k: Seq<char>)
    requires
        o.len() > 0,
        o[0].0 != k,
    ensures
        obj_get(o, k) == obj_get(o.drop_first(), k),
{
}

/// The first-match lookup: when the first entry carrying `k` stands at index
/// `i`, the lookup yields its value.
pub proof fn lemma_obj_get_at<T>(o: Seq<(Seq<char>, T)>, k: Seq<char>, i: int)
    requires
        0 <= i < o.len(),
        o[i].0 == k,
        forall|j: int| 0 <= j < i ==> o[j].0 != k,
    ensures
        obj_contains(o, k),
        obj_get(o, k) == o[i].1,
    decreases i,
{
    if i == 0 {
    } else {
        lemma_obj_get_at(o.drop_first(), k, i - 1);
    }
}

/// Ordered-map insertion on entry vectors; the model is `obj_set`.
pub fn omap_set(m: &mut Vec<(String, Value)>, k: String, v: Value)
    ensures
        entries_view(final(m)@) == obj_set(entries_view(old(m)@), k@, v.view()),
{
    let ghost ov = entries_view(m@);
    let n = m.len();
    let mut j: usize = 0;
    while j < n
        invariant
            n == m@.len(),
            j <= n,
            m@ == old(m)@,
            ov == entries_view(m@),
            forall|i: int| 0 <= i < j ==> ov[i].0 != k@,
        decreases n - j,
    {
        if m[j].0 == k {
            proof {
                lemma_obj_set_found(ov, k@, v.view(), j as int);
            }
            m.set(j, (k, v));
            proof {
                assert(entries_view(m@) =~= ov.update(j as int, (k@, v.view())));
            }
            return ;
        }
        j += 1;
    }
    proof {
        lemma_obj_set_missing(ov, k@, v.view());
    }
    m.push((k, v));
    proof {
        assert(entries_view(m@) =~= ov.push((k@, v.view())));
    }
}

/// First-match lookup on entry vectors; the model is `obj_get`.
pub fn omap_get<'a>(m: &'a Vec<(String, Value)>, k: &String) -> (r: Option<&'a Value>)
    ensures
        match r {
            Some(v) => obj_contains(entries_view(m@), k@) && v.view() == obj_get(
                entries_view(m@),
                k@,
            ),
            None => !obj_contains(entries_view(m@), k@),
        },
{
    let ghost ov = entries_view(m@);
    let n = m.len();
    let mut j: usize = 0;
    while j < n
        invariant
            n == m@.len(),
            ov == entries_view(m@),
            j <= n,
            forall|i: int| 0 <= i < j ==> ov[i].0 != k@,
        decreases n - j,
    {
        if m[j].0 == *k {
            proof {
                lemma_obj_get_at(ov, k@, j as int);
            }
            return Some(&m[j].1);
        }
        j += 1;
    }
    proof {
        assert forall|i: int| 0 <= i < ov.len() implies ov[i].0 != k@ by {}
    }
    None
}

} // verus!
