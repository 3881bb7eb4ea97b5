//! The canonical JSON-compatible value tree: the declaration-order
//! preserving target representation of a configuration document.

use crate::number::num_eq;
use crate::number::Number;
use crate::number::NumberView;
use vstd::prelude::*;

verus! {

/// The abstract value of a [`Value`]: strings as character sequences,
/// containers as sequences, objects as ordered key-value pair sequences.
pub enum ValueView {
    Null,
    Bool(bool),
    Number(NumberView),
    String(Seq<char>),
    Array(Seq<ValueView>),
    Object(Seq<(Seq<char>, ValueView)>),
}

/// A JSON-compatible value: null, a bool, a number, a string, an ordered
/// array, or an object with ordered unique keys.
#[derive(Debug)]
pub enum Value {
    Null,
    Bool(bool),
    Number(Number),
    String(String),
    Array(Vec<Value>),
    Object(ObjectMap),
}

/// An object: an ordered mapping from string keys to values, insertion
/// order preserved, keys unique.
#[derive(Debug)]
pub struct ObjectMap {
    pub entries: Vec<(String, Value)>,
}

/// The abstract value of a sequence of values.
pub open spec fn seq_value_view(s: Seq<Value>) -> Seq<ValueView>
    decreases s,
{
    if s.len() == 0 {
        Seq::empty()
    } else {
        seq_value_view(s.drop_last()).push(value_view(s.last()))
    }
}

/// The abstract value of a sequence of object entries.
pub open spec fn entries_view(s: Seq<(String, Value)>) -> Seq<(Seq<char>, ValueView)>
    decreases s,
{
    if s.len() == 0 {
        Seq::empty()
    } else {
        entries_view(s.drop_last()).push((s.last().0@, value_view(s.last().1)))
    }
}

/// The abstract value of a [`Value`].
pub open spec fn value_view(v: Value) -> ValueView
    decreases v,
{
    match v {
        Value::Null => ValueView::Null,
        Value::Bool(b) => ValueView::Bool(b),
        Value::Number(n) => ValueView::Number(n@),
        Value::String(s) => ValueView::String(s@),
        Value::Array(a) => ValueView::Array(seq_value_view(a@)),
        Value::Object(m) => ValueView::Object(entries_view(m.entries@)),
    }
}

impl View for Value {
    type V = ValueView;

    open spec fn view(&self) -> ValueView {
        value_view(*self)
    }
}

impl DeepView for Value {
    type V = ValueView;

    open spec fn deep_view(&self) -> ValueView {
        value_view(*self)
    }
}

impl View for ObjectMap {
    type V = Seq<(Seq<char>, ValueView)>;

    open spec fn view(&self) -> Seq<(Seq<char>, ValueView)> {
        entries_view(self.entries@)
    }
}

/// Views distribute over indexing into a value sequence.
pub proof fn lemma_seq_value_view_index(s: Seq<Value>, i: int)
    requires
        0 <= i < s.len(),
    ensures
        seq_value_view(s).len() == s.len(),
        seq_value_view(s)[i] == value_view(s[i]),
    decreases s,
{
    lemma_seq_value_view_len(s);
    lemma_seq_value_view_len(s.drop_last());
    if i < s.len() - 1 {
        lemma_seq_value_view_index(s.drop_last(), i);
        assert(s.drop_last()[i] == s[i]);
    } else {
        assert(s[i] == s.last());
    }
}

/// The length of a viewed value sequence.
pub proof fn lemma_seq_value_view_len(s: Seq<Value>)
    ensures
        seq_value_view(s).len() == s.len(),
    decreases s,
{
    if s.len() > 0 {
        lemma_seq_value_view_len(s.drop_last());
    }
}

/// Views distribute over indexing into an entry sequence.
pub proof fn lemma_entries_view_index(s: Seq<(String, Value)>, i: int)
    requires
        0 <= i < s.len(),
    ensures
        entries_view(s).len() == s.len(),
        entries_view(s)[i] == (s[i].0@, value_view(s[i].1)),
    decreases s,
{
    lemma_entries_view_len(s);
    lemma_entries_view_len(s.drop_last());
    if i < s.len() - 1 {
        lemma_entries_view_index(s.drop_last(), i);
        assert(s.drop_last()[i] == s[i]);
    } else {
        assert(s[i] == s.last());
    }
}

/// The length of a viewed entry sequence.
pub proof fn lemma_entries_view_len(s: Seq<(String, Value)>)
    ensures
        entries_view(s).len() == s.len(),
    decreases s,
{
    if s.len() > 0 {
        lemma_entries_view_len(s.drop_last());
    }
}

/// Viewing distributes over concatenating value sequences.
pub proof fn lemma_seq_value_view_concat(xs: Seq<Value>, ys: Seq<Value>)
    ensures
        seq_value_view(xs + ys) == seq_value_view(xs) + seq_value_view(ys),
    decreases ys,
{
    lemma_seq_value_view_len(xs);
    lemma_seq_value_view_len(ys);
    if ys.len() == 0 {
        assert(xs + ys =~= xs);
        assert(seq_value_view(xs) + seq_value_view(ys) =~= seq_value_view(xs));
    } else {
        lemma_seq_value_view_concat(xs, ys.drop_last());
        assert((xs + ys).drop_last() =~= xs + ys.drop_last());
        assert((xs + ys).last() == ys.last());
        lemma_seq_value_view_len(ys.drop_last());
        assert(seq_value_view(xs) + seq_value_view(ys) =~= (seq_value_view(xs) + seq_value_view(
            ys.drop_last(),
        )).push(value_view(ys.last())));
    }
}

/// What `==` means on values: structural equality, with numbers compared
/// by their coercion rules.
pub open spec fn val_eq(a: ValueView, b: ValueView) -> bool
    decreases a,
{
    match (a, b) {
        (ValueView::Null, ValueView::Null) => true,
        (ValueView::Bool(x), ValueView::Bool(y)) => x == y,
        (ValueView::Number(x), ValueView::Number(y)) => num_eq(x, y),
        (ValueView::String(x), ValueView::String(y)) => x == y,
        (ValueView::Array(x), ValueView::Array(y)) => vals_eq(x, y),
        (ValueView::Object(x), ValueView::Object(y)) => obj_entries_eq(x, y),
        _ => false,
    }
}

/// Pairwise [`val_eq`] of two value sequences of equal length.
pub open spec fn vals_eq(x: Seq<ValueView>, y: Seq<ValueView>) -> bool
    decreases x,
{
    if x.len() != y.len() {
        false
    } else if x.len() == 0 {
        true
    } else {
        vals_eq(x.drop_last(), y.drop_last()) && val_eq(x.last(), y.last())
    }
}

/// Pairwise equality of two object entry sequences: keys equal in order,
/// values by [`val_eq`].
pub open spec fn obj_entries_eq(
    x: Seq<(Seq<char>, ValueView)>,
    y: Seq<(Seq<char>, ValueView)>,
) -> bool
    decreases x,
{
    if x.len() != y.len() {
        false
    } else if x.len() == 0 {
        true
    } else {
        obj_entries_eq(x.drop_last(), y.drop_last()) && x.last().0 == y.last().0 && val_eq(
            x.last().1,
            y.last().1,
        )
    }
}

/// [`vals_eq`] is the same as elementwise [`val_eq`].
pub proof fn lemma_vals_eq_iff(x: Seq<ValueView>, y: Seq<ValueView>)
    ensures
        vals_eq(x, y) <==> (x.len() == y.len() && forall|i: int|
            0 <= i < x.len() ==> val_eq(x[i], y[i])),
    decreases x,
{
    if x.len() == y.len() && x.len() > 0 {
        lemma_vals_eq_iff(x.drop_last(), y.drop_last());
        assert forall|i: int| 0 <= i < x.len() - 1 implies x.drop_last()[i] == x[i]
            && y.drop_last()[i] == y[i] by {}
        if vals_eq(x, y) {
            assert forall|i: int| 0 <= i < x.len() implies val_eq(x[i], y[i]) by {
                if i < x.len() - 1 {
                    assert(val_eq(x.drop_last()[i], y.drop_last()[i]));
                }
            }
        }
    }
}

/// [`obj_entries_eq`] is the same as elementwise key and value equality.
pub proof fn lemma_obj_entries_eq_iff(
    x: Seq<(Seq<char>, ValueView)>,
    y: Seq<(Seq<char>, ValueView)>,
)
    ensures
        obj_entries_eq(x, y) <==> (x.len() == y.len() && forall|i: int|
            0 <= i < x.len() ==> x[i].0 == y[i].0 && val_eq(x[i].1, y[i].1)),
    decreases x,
{
    if x.len() == y.len() && x.len() > 0 {
        lemma_obj_entries_eq_iff(x.drop_last(), y.drop_last());
        assert forall|i: int| 0 <= i < x.len() - 1 implies x.drop_last()[i] == x[i]
            && y.drop_last()[i] == y[i] by {}
        if obj_entries_eq(x, y) {
            assert forall|i: int| 0 <= i < x.len() implies x[i].0 == y[i].0 && val_eq(
                x[i].1,
                y[i].1,
            ) by {
                if i < x.len() - 1 {
                    assert(x.drop_last()[i].0 == y.drop_last()[i].0 && val_eq(
                        x.drop_last()[i].1,
                        y.drop_last()[i].1,
                    ));
                }
            }
        }
    }
}

/// Structural equality of two values, executed recursively.
fn value_eq(a: &Value, b: &Value) -> (r: bool)
    ensures
        r == val_eq(a@, b@),
    decreases *a,
{
    match a {
        Value::Null => match b {
            Value::Null => true,
            _ => false,
        },
        Value::Bool(x) => match b {
            Value::Bool(y) => *x == *y,
            _ => false,
        },
        Value::Number(x) => match b {
            Value::Number(y) => *x == *y,
            _ => false,
        },
        Value::String(x) => match b {
            Value::String(y) => *x == *y,
            _ => false,
        },
        Value::Array(x) => match b {
            Value::Array(y) => {
                proof {
                    lemma_seq_value_view_len(x@);
                    lemma_seq_value_view_len(y@);
                    lemma_vals_eq_iff(seq_value_view(x@), seq_value_view(y@));
                }
                if x.len() != y.len() {
                    return false;
                }
                let mut i: usize = 0;
                while i < x.len()
                    invariant
                        i <= x.len(),
                        x.len() == y.len(),
                        *a == Value::Array(*x),
                        *b == Value::Array(*y),
                        forall|j: int|
                            0 <= j < i ==> val_eq(seq_value_view(x@)[j], seq_value_view(y@)[j]),
                    decreases x.len() - i,
                {
                    proof {
                        lemma_seq_value_view_index(x@, i as int);
                        lemma_seq_value_view_index(y@, i as int);
                        lemma_vals_eq_iff(seq_value_view(x@), seq_value_view(y@));
                        assert(decreases_to!(*a => (*a)->Array_0));
                        assert((*a)->Array_0 == *x);
                        vstd::std_specs::vec::axiom_vec_index_decreases((*a)->Array_0, i as int);
                    }
                    if !value_eq(&x[i], &y[i]) {
                        return false;
                    }
                    i += 1;
                }
                proof {
                    lemma_vals_eq_iff(seq_value_view(x@), seq_value_view(y@));
                }
                true
            },
            _ => false,
        },
        Value::Object(x) => match b {
            Value::Object(y) => {
                proof {
                    lemma_entries_view_len(x.entries@);
                    lemma_entries_view_len(y.entries@);
                    lemma_obj_entries_eq_iff(entries_view(x.entries@), entries_view(y.entries@));
                }
                if x.entries.len() != y.entries.len() {
                    return false;
                }
                let mut i: usize = 0;
                while i < x.entries.len()
                    invariant
                        i <= x.entries.len(),
                        x.entries.len() == y.entries.len(),
                        *a == Value::Object(*x),
                        *b == Value::Object(*y),
                        forall|j: int|
                            0 <= j < i ==> entries_view(x.entries@)[j].0 == entries_view(
                                y.entries@,
                            )[j].0 && val_eq(
                                entries_view(x.entries@)[j].1,
                                entries_view(y.entries@)[j].1,
                            ),
                    decreases x.entries.len() - i,
                {
                    proof {
                        lemma_entries_view_index(x.entries@, i as int);
                        lemma_entries_view_index(y.entries@, i as int);
                        lemma_obj_entries_eq_iff(
                            entries_view(x.entries@),
                            entries_view(y.entries@),
                        );
                        assert(decreases_to!(*a => (*a)->Object_0));
                        assert((*a)->Object_0 == *x);
                        assert(decreases_to!((*a)->Object_0 => (*a)->Object_0.entries));
                        vstd::std_specs::vec::axiom_vec_index_decreases(
                            (*a)->Object_0.entries,
                            i as int,
                        );
                        assert(decreases_to!(
                            (*a)->Object_0.entries@[i as int] => (*a)->Object_0.entries@[i as int].1));
                    }
                    if !(x.entries[i].0 == y.entries[i].0) {
                        return false;
                    }
                    if !value_eq(&x.entries[i].1, &y.entries[i].1) {
                        return false;
                    }
                    i += 1;
                }
                proof {
                    lemma_obj_entries_eq_iff(entries_view(x.entries@), entries_view(y.entries@));
                }
                true
            },
            _ => false,
        },
    }
}

impl PartialEq for Value {
    fn eq(&self, other: &Value) -> (r: bool) {
        value_eq(self, other)
    }
}

impl vstd::std_specs::cmp::PartialEqSpecImpl for Value {
    open spec fn obeys_eq_spec() -> bool {
        true
    }

    open spec fn eq_spec(&self, other: &Value) -> bool {
        val_eq(self@, other@)
    }
}

impl Value {
    /// True exactly when this value is an array.
    pub fn is_array(&self) -> (r: bool)
        ensures
            r == (self@ is Array),
    {
        match self {
            Value::Array(_) => true,
            _ => false,
        }
    }

    /// True exactly when this value is an object.
    pub fn is_object(&self) -> (r: bool)
        ensures
            r == (self@ is Object),
    {
        match self {
            Value::Object(_) => true,
            _ => false,
        }
    }
}

/// The index of the first entry with the given key, or `-1` when no
/// entry has it.
pub open spec fn find_key<T>(es: Seq<(Seq<char>, T)>, k: Seq<char>) -> int
    decreases es,
{
    if es.len() == 0 {
        -1
    } else if es[0].0 == k {
        0
    } else {
        let r = find_key(es.skip(1), k);
        if r < 0 {
            -1
        } else {
            r + 1
        }
    }
}

/// What [`find_key`] returns: the first matching index, or `-1` when the
/// key is absent.
pub proof fn lemma_find_key_props<T>(es: Seq<(Seq<char>, T)>, k: Seq<char>)
    ensures
        find_key(es, k) == -1 ==> (forall|j: int| 0 <= j < es.len() ==> es[j].0 != k),
        find_key(es, k) != -1 ==> 0 <= find_key(es, k) < es.len() && es[find_key(es, k)].0 == k
            && (forall|j: int| 0 <= j < find_key(es, k) ==> es[j].0 != k),
    decreases es,
{
    if es.len() > 0 && es[0].0 != k {
        lemma_find_key_props(es.skip(1), k);
        assert forall|j: int| 1 <= j < es.len() implies es.skip(1)[j - 1] == es[j] by {}
    }
}

/// Inserting under a key: an existing entry keeps its position and takes
/// the new value (last write wins); a new key is appended.
pub open spec fn obj_update(
    es: Seq<(Seq<char>, ValueView)>,
    k: Seq<char>,
    v: ValueView,
) -> Seq<(Seq<char>, ValueView)> {
    let i = find_key(es, k);
    if i < 0 {
        es.push((k, v))
    } else {
        es.update(i, (k, v))
    }
}

/// Whether all keys of an entry sequence are distinct.
pub open spec fn obj_keys_unique(es: Seq<(Seq<char>, ValueView)>) -> bool {
    forall|i: int, j: int| 0 <= i < j < es.len() ==> es[i].0 != es[j].0
}

/// Insertion keeps the keys distinct.
pub proof fn lemma_obj_update_unique(es: Seq<(Seq<char>, ValueView)>, k: Seq<char>, v: ValueView)
    requires
        obj_keys_unique(es),
    ensures
        obj_keys_unique(obj_update(es, k, v)),
{
    lemma_find_key_props(es, k);
}

impl ObjectMap {
    /// An empty object.
    pub fn new() -> (r: ObjectMap)
        ensures
            r@ == Seq::<(Seq<char>, ValueView)>::empty(),
    {
        ObjectMap { entries: Vec::new() }
    }

    /// The number of entries.
    pub fn len(&self) -> (r: usize)
        ensures
            r == self@.len(),
    {
        proof {
            lemma_entries_view_len(self.entries@);
        }
        self.entries.len()
    }

    /// The index of the first entry with the given key, if any.
    fn find_index(&self, key: &String) -> (r: Option<usize>)
        ensures
            r matches Some(i) ==> find_key(self@, key@) == i as int,
            r is None ==> find_key(self@, key@) == -1,
    {
        proof {
            lemma_entries_view_len(self.entries@);
            lemma_find_key_props(self@, key@);
        }
        let mut i: usize = 0;
        while i < self.entries.len()
            invariant
                i <= self.entries.len(),
                forall|j: int| 0 <= j < i ==> entries_view(self.entries@)[j].0 != key@,
                entries_view(self.entries@).len() == self.entries@.len(),
                find_key(self@, key@) == -1 ==> (forall|j: int|
                    0 <= j < self@.len() ==> self@[j].0 != key@),
                find_key(self@, key@) != -1 ==> 0 <= find_key(self@, key@) < self@.len()
                    && self@[find_key(self@, key@)].0 == key@ && (forall|j: int|
                    0 <= j < find_key(self@, key@) ==> self@[j].0 != key@),
            decreases self.entries.len() - i,
        {
            proof {
                lemma_entries_view_index(self.entries@, i as int);
            }
            if self.entries[i].0 == *key {
                return Some(i);
            }
            i += 1;
        }
        None
    }

    /// The value under the given key, if any.
    pub fn get(&self, key: &String) -> (r: Option<&Value>)
        ensures
            find_key(self@, key@) >= 0 ==> (r matches Some(v) && value_view(*v) == self@[find_key(
                self@,
                key@,
            )].1),
            find_key(self@, key@) < 0 ==> r is None,
    {
        proof {
            lemma_entries_view_len(self.entries@);
        }
        let found = self.find_index(key);
        match found {
            Some(i) => {
                proof {
                    lemma_find_key_props(self@, key@);
                    lemma_entries_view_index(self.entries@, i as int);
                }
                Some(&self.entries[i].1)
            },
            None => None,
        }
    }

    /// Inserts a value under a key: an existing key keeps its position
    /// and takes the new value (last write wins); a new key is appended.
    /// Distinct keys stay distinct (see [`lemma_obj_update_unique`]).
    pub fn insert(&mut self, key: String, value: Value)
        ensures
            final(self)@ == obj_update(old(self)@, key@, value@),
    {
        proof {
            lemma_entries_view_len(self.entries@);
            lemma_find_key_props(self@, key@);
        }
        let found = self.find_index(&key);
        match found {
            Some(i) => {
                self.entries.remove(i);
                self.entries.insert(i, (key, value));
                proof {
                    let old_es = old(self).entries@;
                    assert(self.entries@ =~= old_es.update(
                        find_key(old(self)@, key@),
                        (key, value),
                    ));
                    lemma_entries_view_update(
                        old_es,
                        find_key(old(self)@, key@),
                        (key, value),
                    );
                }
            },
            None => {
                self.entries.push((key, value));
                proof {
                    let old_es = old(self).entries@;
                    assert(self.entries@.drop_last() =~= old_es);
                    assert(entries_view(self.entries@) =~= entries_view(old_es).push(
                        (key@, value@),
                    ));
                }
            },
        }
    }
}

/// Whether a value tree is well formed: every object anywhere in it
/// has distinct keys.
pub open spec fn view_wf(v: ValueView) -> bool
    decreases v, 1int,
{
    match v {
        ValueView::Array(vs) => views_wf(vs),
        ValueView::Object(es) => obj_keys_unique(es) && obj_entries_wf(es),
        _ => true,
    }
}

/// [`view_wf`] of every element.
pub open spec fn views_wf(vs: Seq<ValueView>) -> bool
    decreases vs, 0int,
{
    if vs.len() == 0 {
        true
    } else {
        views_wf(vs.drop_last()) && view_wf(vs.last())
    }
}

/// [`view_wf`] of every entry's value.
pub open spec fn obj_entries_wf(es: Seq<(Seq<char>, ValueView)>) -> bool
    decreases es, 0int,
{
    if es.len() == 0 {
        true
    } else {
        obj_entries_wf(es.drop_last()) && view_wf(es.last().1)
    }
}

/// [`views_wf`] is the same as elementwise [`view_wf`].
pub proof fn lemma_views_wf_iff(vs: Seq<ValueView>)
    ensures
        views_wf(vs) <==> (forall|i: int| 0 <= i < vs.len() ==> view_wf(vs[i])),
    decreases vs,
{
    if vs.len() > 0 {
        lemma_views_wf_iff(vs.drop_last());
        assert forall|i: int| 0 <= i < vs.len() - 1 implies vs.drop_last()[i] == vs[i] by {}
        if views_wf(vs) {
            assert forall|i: int| 0 <= i < vs.len() implies view_wf(vs[i]) by {
                if i < vs.len() - 1 {
                    assert(view_wf(vs.drop_last()[i]));
                }
            }
        }
    }
}

/// [`obj_entries_wf`] is the same as elementwise [`view_wf`] of the
/// values.
pub proof fn lemma_obj_entries_wf_iff(es: Seq<(Seq<char>, ValueView)>)
    ensures
        obj_entries_wf(es) <==> (forall|i: int| 0 <= i < es.len() ==> view_wf(es[i].1)),
    decreases es,
{
    if es.len() > 0 {
        lemma_obj_entries_wf_iff(es.drop_last());
        assert forall|i: int| 0 <= i < es.len() - 1 implies es.drop_last()[i] == es[i] by {}
        if obj_entries_wf(es) {
            assert forall|i: int| 0 <= i < es.len() implies view_wf(es[i].1) by {
                if i < es.len() - 1 {
                    assert(view_wf(es.drop_last()[i].1));
                }
            }
        }
    }
}

/// Views distribute over updating one entry.
pub proof fn lemma_entries_view_update(s: Seq<(String, Value)>, i: int, p: (String, Value))
    requires
        0 <= i < s.len(),
    ensures
        entries_view(s.update(i, p)) =~= entries_view(s).update(i, (p.0@, value_view(p.1))),
{
    lemma_entries_view_len(s);
    lemma_entries_view_len(s.update(i, p));
    assert forall|j: int| 0 <= j < s.len() implies entries_view(s.update(i, p))[j] == entries_view(
        s,
    ).update(i, (p.0@, value_view(p.1)))[j] by {
        lemma_entries_view_index(s.update(i, p), j);
        lemma_entries_view_index(s, j);
    }
}

} // verus!
