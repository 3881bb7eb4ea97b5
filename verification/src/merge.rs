//! The merge engine: folds a [`Body`] into a single ordered-unique-key
//! object [`Value`], flattening labelled blocks into nested objects and
//! accumulating repeated unlabelled blocks into arrays.
//!
//! The fold keeps, per key, a transient [`Node`]: the explicit empty
//! state, a nested label mapping, the collected bodies of repeated
//! blocks, or a plain value.  Keys keep the position of their first
//! occurrence; merging under an existing key updates its node in place.

use crate::structure::BlockLabel;
use crate::structure::Body;
use crate::structure::LabelView;
use crate::structure::Structure;
use crate::structure::StructureView;
use crate::structure::structures_view;
use crate::value::find_key;
use crate::value::lemma_find_key_props;
use crate::value::ObjectMap;
use crate::value::Value;
use crate::value::ValueView;
use vstd::prelude::*;

verus! {

/// The abstract value of a transient merge node.
pub enum NodeView {
    /// The empty state: what a key maps to before anything merged into
    /// it; it projects to null.
    Empty,
    /// The nested mapping produced by collapsing block labels.
    Block(Seq<(Seq<char>, NodeView)>),
    /// The collected (already projected) bodies of repeated unlabelled
    /// blocks, in declaration order.
    BlockBodies(Seq<ValueView>),
    /// A plain attribute value.
    Value(ValueView),
}

/// The string a label holds, whichever way it is written.
pub open spec fn label_text(l: LabelView) -> Seq<char> {
    match l {
        LabelView::Identifier(s) => s,
        LabelView::StringLit(s) => s,
    }
}

/// The merge of a new node into the one already held under a key:
/// label mappings merge recursively, collected bodies concatenate, and
/// every other combination discards the old entry for the new one
/// (last write wins).
pub open spec fn merge_node(a: NodeView, b: NodeView) -> NodeView
    decreases b, 1int,
{
    match a {
        NodeView::Block(la) => match b {
            NodeView::Block(lb) => NodeView::Block(merge_entries(la, lb)),
            _ => b,
        },
        NodeView::BlockBodies(va) => match b {
            NodeView::BlockBodies(vb) => NodeView::BlockBodies(va + vb),
            _ => b,
        },
        _ => b,
    }
}

/// Folds every entry of `lb`, in order, into `la` by [`insert_merge`].
pub open spec fn merge_entries(
    la: Seq<(Seq<char>, NodeView)>,
    lb: Seq<(Seq<char>, NodeView)>,
) -> Seq<(Seq<char>, NodeView)>
    decreases lb, 2int,
{
    if lb.len() == 0 {
        la
    } else {
        insert_merge(merge_entries(la, lb.drop_last()), lb.last())
    }
}

/// Inserts one keyed node: a key seen before keeps its position and has
/// the new node merged into its entry; a new key is appended.
pub open spec fn insert_merge(
    la: Seq<(Seq<char>, NodeView)>,
    kn: (Seq<char>, NodeView),
) -> Seq<(Seq<char>, NodeView)>
    decreases kn, 3int,
{
    let i = find_key(la, kn.0);
    if i < 0 {
        la.push(kn)
    } else {
        la.update(i, (kn.0, merge_node(la[i].1, kn.1)))
    }
}

/// The node one structure contributes, keyed by its attribute key or
/// block identifier.
pub open spec fn struct_entry(s: StructureView) -> (Seq<char>, NodeView)
    decreases s, 3int, 0int,
{
    match s {
        StructureView::Attribute(a) => (a.key, NodeView::Value(a.value)),
        StructureView::Block(b) => (b.identifier, labels_node(b.labels, b.body, 0)),
    }
}

/// Collapses the labels of a block, from position `i` on, into nested
/// one-entry mappings; with no label left, the block's body is projected
/// and collected as a single block body.
pub open spec fn labels_node(labels: Seq<LabelView>, body: Seq<StructureView>, i: int) -> NodeView
    decreases body, 2int, labels.len() - i,
{
    if i < 0 || i >= labels.len() {
        NodeView::BlockBodies(seq![body_value(body)])
    } else {
        NodeView::Block(seq![(label_text(labels[i]), labels_node(labels, body, i + 1))])
    }
}

/// The keyed nodes a body folds to, left to right.
pub open spec fn body_nodes(ss: Seq<StructureView>) -> Seq<(Seq<char>, NodeView)>
    decreases ss, 0int, 0int,
{
    if ss.len() == 0 {
        Seq::empty()
    } else {
        insert_merge(body_nodes(ss.drop_last()), struct_entry(ss.last()))
    }
}

/// The value a body converts to: the ordered object of its folded and
/// projected nodes.
pub open spec fn body_value(ss: Seq<StructureView>) -> ValueView
    decreases ss, 1int, 0int,
{
    ValueView::Object(project_entries(body_nodes(ss)))
}

/// The value a node projects to: the empty state to null, a label
/// mapping to an object, a single collected body to its plain object, a
/// repeated one to an array of objects, a plain value to itself.
pub open spec fn project_node(n: NodeView) -> ValueView
    decreases n, 1int,
{
    match n {
        NodeView::Empty => ValueView::Null,
        NodeView::Block(es) => ValueView::Object(project_entries(es)),
        NodeView::BlockBodies(vs) => if vs.len() == 1 {
            vs[0]
        } else {
            ValueView::Array(vs)
        },
        NodeView::Value(v) => v,
    }
}

/// Projects every entry of a keyed node sequence, keeping keys and
/// order.
pub open spec fn project_entries(es: Seq<(Seq<char>, NodeView)>) -> Seq<(Seq<char>, ValueView)>
    decreases es, 0int,
{
    if es.len() == 0 {
        Seq::empty()
    } else {
        project_entries(es.drop_last()).push((es.last().0, project_node(es.last().1)))
    }
}

/// Whether all keys of a keyed node sequence are distinct.
pub open spec fn node_keys_unique(es: Seq<(Seq<char>, NodeView)>) -> bool {
    forall|i: int, j: int| 0 <= i < j < es.len() ==> es[i].0 != es[j].0
}

/// Inserting keeps keys distinct.
pub proof fn lemma_insert_merge_unique(la: Seq<(Seq<char>, NodeView)>, kn: (Seq<char>, NodeView))
    requires
        node_keys_unique(la),
    ensures
        node_keys_unique(insert_merge(la, kn)),
{
    lemma_find_key_props(la, kn.0);
}

/// The fold of a body has distinct keys.
pub proof fn lemma_body_nodes_unique(ss: Seq<StructureView>)
    ensures
        node_keys_unique(body_nodes(ss)),
    decreases ss,
{
    if ss.len() > 0 {
        lemma_body_nodes_unique(ss.drop_last());
        lemma_insert_merge_unique(body_nodes(ss.drop_last()), struct_entry(ss.last()));
    }
}

/// Projection keeps length and keys.
pub proof fn lemma_project_entries_keys(es: Seq<(Seq<char>, NodeView)>)
    ensures
        project_entries(es).len() == es.len(),
        forall|i: int|
            0 <= i < es.len() ==> #[trigger] project_entries(es)[i] == (
                es[i].0,
                project_node(es[i].1),
            ),
    decreases es,
{
    if es.len() > 0 {
        lemma_project_entries_keys(es.drop_last());
        assert forall|i: int| 0 <= i < es.len() - 1 implies es.drop_last()[i] == es[i] by {}
    }
}

/// The object a body converts to has distinct keys.
pub proof fn lemma_body_value_keys_unique(ss: Seq<StructureView>)
    ensures
        body_value(ss) matches ValueView::Object(es) && crate::value::obj_keys_unique(es),
{
    lemma_body_nodes_unique(ss);
    lemma_project_entries_keys(body_nodes(ss));
}

/// Two keyed sequences with the same keys in the same order find any
/// key at the same place.
pub proof fn lemma_find_key_same_keys<T, U>(
    a: Seq<(Seq<char>, T)>,
    b: Seq<(Seq<char>, U)>,
    k: Seq<char>,
)
    requires
        a.len() == b.len(),
        forall|i: int| 0 <= i < a.len() ==> a[i].0 == b[i].0,
    ensures
        find_key(a, k) == find_key(b, k),
{
    lemma_find_key_props(a, k);
    lemma_find_key_props(b, k);
    let fa = find_key(a, k);
    let fb = find_key(b, k);
    if fa == -1 {
        if fb != -1 {
            assert(a[fb].0 == k);
        }
    } else {
        if fb == -1 {
            assert(b[fa].0 == k);
        } else {
            if fa < fb {
                assert(b[fa].0 == k);
            }
            if fb < fa {
                assert(a[fb].0 == k);
            }
        }
    }
}

/// Projection commutes with updating one entry.
pub proof fn lemma_project_entries_update(
    es: Seq<(Seq<char>, NodeView)>,
    i: int,
    p: (Seq<char>, NodeView),
)
    requires
        0 <= i < es.len(),
    ensures
        project_entries(es.update(i, p)) =~= project_entries(es).update(
            i,
            (p.0, project_node(p.1)),
        ),
{
    lemma_project_entries_keys(es);
    lemma_project_entries_keys(es.update(i, p));
}

/// Projection commutes with appending one entry.
pub proof fn lemma_project_entries_push(es: Seq<(Seq<char>, NodeView)>, p: (Seq<char>, NodeView))
    ensures
        project_entries(es.push(p)) =~= project_entries(es).push((p.0, project_node(p.1))),
{
    assert(es.push(p).drop_last() =~= es);
    assert(es.push(p).last() == p);
}

/// Merge flattening, singleton block: a body holding exactly one
/// unlabelled block converts to a plain nested object under the block's
/// identifier, not to a one-element array.
pub proof fn lemma_singleton_block_flattens(ident: Seq<char>, inner: Seq<StructureView>)
    ensures
        body_value(
            seq![
                StructureView::Block(
                    crate::structure::BlockView {
                        identifier: ident,
                        labels: Seq::empty(),
                        body: inner,
                    },
                ),
            ],
        ) == ValueView::Object(seq![(ident, body_value(inner))]),
{
    let s = StructureView::Block(
        crate::structure::BlockView { identifier: ident, labels: Seq::empty(), body: inner },
    );
    let ss = seq![s];
    assert(ss.drop_last() =~= Seq::<StructureView>::empty());
    assert(ss.last() == s);
    let kn = struct_entry(s);
    assert(kn.1 == NodeView::BlockBodies(seq![body_value(inner)]));
    assert(body_nodes(ss) == insert_merge(Seq::empty(), kn));
    lemma_find_key_props(Seq::<(Seq<char>, NodeView)>::empty(), ident);
    assert(find_key(Seq::<(Seq<char>, NodeView)>::empty(), ident) == -1);
    assert(body_nodes(ss) =~= seq![kn]);
    assert(project_entries(body_nodes(ss)) =~= seq![(ident, project_node(kn.1))]) by {
        lemma_project_entries_keys(body_nodes(ss));
    }
    assert(project_node(kn.1) == body_value(inner));
}

/// Merge flattening, repeated block: a body holding two unlabelled
/// blocks with the same identifier converts to an array of their two
/// body objects, in declaration order.
pub proof fn lemma_repeated_block_accumulates(
    ident: Seq<char>,
    inner1: Seq<StructureView>,
    inner2: Seq<StructureView>,
)
    ensures
        body_value(
            seq![
                StructureView::Block(
                    crate::structure::BlockView {
                        identifier: ident,
                        labels: Seq::empty(),
                        body: inner1,
                    },
                ),
                StructureView::Block(
                    crate::structure::BlockView {
                        identifier: ident,
                        labels: Seq::empty(),
                        body: inner2,
                    },
                ),
            ],
        ) == ValueView::Object(
            seq![(ident, ValueView::Array(seq![body_value(inner1), body_value(inner2)]))],
        ),
{
    let s1 = StructureView::Block(
        crate::structure::BlockView { identifier: ident, labels: Seq::empty(), body: inner1 },
    );
    let s2 = StructureView::Block(
        crate::structure::BlockView { identifier: ident, labels: Seq::empty(), body: inner2 },
    );
    let ss = seq![s1, s2];
    let ss1 = seq![s1];
    assert(ss.drop_last() =~= ss1);
    assert(ss.last() == s2);
    assert(ss1.drop_last() =~= Seq::<StructureView>::empty());
    assert(ss1.last() == s1);
    let kn1 = struct_entry(s1);
    let kn2 = struct_entry(s2);
    assert(kn1.1 == NodeView::BlockBodies(seq![body_value(inner1)]));
    assert(kn2.1 == NodeView::BlockBodies(seq![body_value(inner2)]));
    lemma_find_key_props(Seq::<(Seq<char>, NodeView)>::empty(), ident);
    assert(body_nodes(ss1) =~= seq![kn1]);
    assert(body_nodes(ss) == insert_merge(seq![kn1], kn2));
    assert(find_key(seq![kn1], ident) == 0);
    let merged = merge_node(kn1.1, kn2.1);
    assert(merged == NodeView::BlockBodies(seq![body_value(inner1)] + seq![body_value(inner2)]));
    assert(seq![body_value(inner1)] + seq![body_value(inner2)] =~= seq![
        body_value(inner1),
        body_value(inner2),
    ]);
    assert(body_nodes(ss) =~= seq![(ident, merged)]);
    assert(project_entries(body_nodes(ss)) =~= seq![(ident, project_node(merged))]) by {
        lemma_project_entries_keys(body_nodes(ss));
    }
    assert(project_node(merged) == ValueView::Array(
        seq![body_value(inner1), body_value(inner2)],
    ));
}

/// Whether every structure of a body is an attribute.
pub open spec fn attributes_only(ss: Seq<StructureView>) -> bool {
    forall|i: int| 0 <= i < ss.len() ==> ss[i] is Attribute
}

/// The flat object built by inserting each attribute's key and value,
/// in order, with last write wins.
pub open spec fn flat_object(ss: Seq<StructureView>) -> Seq<(Seq<char>, ValueView)>
    decreases ss,
{
    if ss.len() == 0 {
        Seq::empty()
    } else {
        let prev = flat_object(ss.drop_last());
        match ss.last() {
            StructureView::Attribute(a) => crate::value::obj_update(prev, a.key, a.value),
            _ => prev,
        }
    }
}

/// Idempotence of projection: a body built purely from attributes
/// converts to exactly the flat object of its key-value pairs.
pub proof fn lemma_attributes_only_flat(ss: Seq<StructureView>)
    requires
        attributes_only(ss),
    ensures
        body_value(ss) == ValueView::Object(flat_object(ss)),
    decreases ss,
{
    if ss.len() == 0 {
        assert(project_entries(body_nodes(ss)) =~= flat_object(ss));
    } else {
        let prefix = ss.drop_last();
        assert(forall|i: int| 0 <= i < prefix.len() ==> prefix[i] == ss[i]);
        lemma_attributes_only_flat(prefix);
        let a = ss.last()->Attribute_0;
        assert(ss.last() == StructureView::Attribute(a));
        let es = body_nodes(prefix);
        let kn = struct_entry(ss.last());
        assert(kn == (a.key, NodeView::Value(a.value)));
        assert(body_nodes(ss) == insert_merge(es, kn));
        lemma_project_entries_keys(es);
        lemma_find_key_same_keys(es, project_entries(es), a.key);
        let f = find_key(es, a.key);
        lemma_find_key_props(es, a.key);
        if f < 0 {
            lemma_project_entries_push(es, kn);
            assert(project_entries(insert_merge(es, kn)) =~= crate::value::obj_update(
                project_entries(es),
                a.key,
                a.value,
            ));
        } else {
            let merged = merge_node(es[f].1, kn.1);
            assert(merged == NodeView::Value(a.value));
            lemma_project_entries_update(es, f, (a.key, merged));
            assert(project_entries(insert_merge(es, kn)) =~= crate::value::obj_update(
                project_entries(es),
                a.key,
                a.value,
            ));
        }
        assert(flat_object(ss) == crate::value::obj_update(flat_object(prefix), a.key, a.value));
    }
}

/// The key one structure contributes: its attribute key or block
/// identifier.
pub open spec fn struct_key(s: StructureView) -> Seq<char> {
    match s {
        StructureView::Attribute(a) => a.key,
        StructureView::Block(b) => b.identifier,
    }
}

/// The keys of a keyed node sequence, in order.
pub open spec fn keys_of(es: Seq<(Seq<char>, NodeView)>) -> Seq<Seq<char>> {
    es.map(|i: int, e: (Seq<char>, NodeView)| e.0)
}

/// The distinct keys of a body in order of first occurrence.
pub open spec fn first_keys(ss: Seq<StructureView>) -> Seq<Seq<char>>
    decreases ss,
{
    if ss.len() == 0 {
        Seq::empty()
    } else {
        let p = first_keys(ss.drop_last());
        if p.contains(struct_key(ss.last())) {
            p
        } else {
            p.push(struct_key(ss.last()))
        }
    }
}

/// Determinism of key order: the object a body converts to lists its
/// keys exactly in order of each key's first occurrence; later merges
/// update a key's value but never move its position.
pub proof fn lemma_body_value_key_order(ss: Seq<StructureView>)
    ensures
        keys_of(body_nodes(ss)) == first_keys(ss),
    decreases ss,
{
    if ss.len() > 0 {
        lemma_body_value_key_order(ss.drop_last());
        let es = body_nodes(ss.drop_last());
        let kn = struct_entry(ss.last());
        assert(kn.0 == struct_key(ss.last()));
        lemma_find_key_props(es, kn.0);
        let f = find_key(es, kn.0);
        if f < 0 {
            assert(!keys_of(es).contains(kn.0)) by {
                if keys_of(es).contains(kn.0) {
                    let j = choose|j: int|
                        0 <= j < keys_of(es).len() && keys_of(es)[j] == kn.0;
                    assert(es[j].0 == kn.0);
                }
            }
            assert(keys_of(es.push(kn)) =~= keys_of(es).push(kn.0));
        } else {
            assert(keys_of(es).contains(kn.0)) by {
                assert(keys_of(es)[f] == kn.0);
            }
            assert(keys_of(es.update(f, (kn.0, merge_node(es[f].1, kn.1)))) =~= keys_of(es));
        }
    } else {
        assert(keys_of(body_nodes(ss)) =~= Seq::<Seq<char>>::empty());
    }
}

/// Whether every structure's payload is well formed: attribute values
/// by [`crate::value::view_wf`], block bodies recursively.
pub open spec fn structs_wf(ss: Seq<StructureView>) -> bool
    decreases ss, 0int,
{
    if ss.len() == 0 {
        true
    } else {
        structs_wf(ss.drop_last()) && struct_wf(ss.last())
    }
}

/// Well-formedness of one structure's payload.
pub open spec fn struct_wf(s: StructureView) -> bool
    decreases s, 1int,
{
    match s {
        StructureView::Attribute(a) => crate::value::view_wf(a.value),
        StructureView::Block(b) => structs_wf(b.body),
    }
}

/// Whether a node holds only well-formed data: label mappings with
/// distinct keys and well-formed entries, collected bodies and plain
/// values well formed.
pub open spec fn node_wf(n: NodeView) -> bool
    decreases n, 1int,
{
    match n {
        NodeView::Empty => true,
        NodeView::Block(es) => node_keys_unique(es) && node_entries_wf(es),
        NodeView::BlockBodies(vs) => crate::value::views_wf(vs),
        NodeView::Value(v) => crate::value::view_wf(v),
    }
}

/// [`node_wf`] of every entry's node.
pub open spec fn node_entries_wf(es: Seq<(Seq<char>, NodeView)>) -> bool
    decreases es, 0int,
{
    if es.len() == 0 {
        true
    } else {
        node_entries_wf(es.drop_last()) && node_wf(es.last().1)
    }
}

/// [`node_entries_wf`] is the same as elementwise [`node_wf`].
pub proof fn lemma_node_entries_wf_iff(es: Seq<(Seq<char>, NodeView)>)
    ensures
        node_entries_wf(es) <==> (forall|i: int| 0 <= i < es.len() ==> node_wf(es[i].1)),
    decreases es,
{
    if es.len() > 0 {
        lemma_node_entries_wf_iff(es.drop_last());
        assert forall|i: int| 0 <= i < es.len() - 1 implies es.drop_last()[i] == es[i] by {}
        if node_entries_wf(es) {
            assert forall|i: int| 0 <= i < es.len() implies node_wf(es[i].1) by {
                if i < es.len() - 1 {
                    assert(node_wf(es.drop_last()[i].1));
                }
            }
        }
    }
}

/// Merging two well-formed nodes yields a well-formed node.
pub proof fn lemma_merge_node_wf(a: NodeView, b: NodeView)
    requires
        node_wf(a),
        node_wf(b),
    ensures
        node_wf(merge_node(a, b)),
    decreases b, 1int,
{
    match a {
        NodeView::Block(la) => match b {
            NodeView::Block(lb) => {
                lemma_merge_entries_wf(la, lb);
            },
            _ => {},
        },
        NodeView::BlockBodies(va) => match b {
            NodeView::BlockBodies(vb) => {
                crate::value::lemma_views_wf_iff(va);
                crate::value::lemma_views_wf_iff(vb);
                crate::value::lemma_views_wf_iff(va + vb);
            },
            _ => {},
        },
        _ => {},
    }
}

/// Folding well-formed entries into a well-formed entry list keeps it
/// well formed.
pub proof fn lemma_merge_entries_wf(
    la: Seq<(Seq<char>, NodeView)>,
    lb: Seq<(Seq<char>, NodeView)>,
)
    requires
        node_keys_unique(la),
        node_entries_wf(la),
        node_entries_wf(lb),
    ensures
        node_keys_unique(merge_entries(la, lb)),
        node_entries_wf(merge_entries(la, lb)),
    decreases lb, 2int,
{
    if lb.len() > 0 {
        lemma_merge_entries_wf(la, lb.drop_last());
        lemma_node_entries_wf_iff(lb);
        lemma_insert_merge_wf(merge_entries(la, lb.drop_last()), lb.last());
    }
}

/// Inserting a well-formed keyed node keeps an entry list well formed.
pub proof fn lemma_insert_merge_wf(la: Seq<(Seq<char>, NodeView)>, kn: (Seq<char>, NodeView))
    requires
        node_keys_unique(la),
        node_entries_wf(la),
        node_wf(kn.1),
    ensures
        node_keys_unique(insert_merge(la, kn)),
        node_entries_wf(insert_merge(la, kn)),
    decreases kn, 3int,
{
    lemma_insert_merge_unique(la, kn);
    lemma_find_key_props(la, kn.0);
    lemma_node_entries_wf_iff(la);
    let i = find_key(la, kn.0);
    if i < 0 {
        lemma_node_entries_wf_iff(la.push(kn));
    } else {
        lemma_merge_node_wf(la[i].1, kn.1);
        lemma_node_entries_wf_iff(la.update(i, (kn.0, merge_node(la[i].1, kn.1))));
    }
}

/// The node a well-formed structure contributes is well formed.
pub proof fn lemma_struct_entry_wf(s: StructureView)
    requires
        struct_wf(s),
    ensures
        node_wf(struct_entry(s).1),
    decreases s, 3int, 0int,
{
    match s {
        StructureView::Attribute(_) => {},
        StructureView::Block(b) => {
            lemma_labels_node_wf(b.labels, b.body, 0);
        },
    }
}

/// Collapsing the labels of a well-formed body yields a well-formed
/// node.
pub proof fn lemma_labels_node_wf(labels: Seq<LabelView>, body: Seq<StructureView>, i: int)
    requires
        structs_wf(body),
    ensures
        node_wf(labels_node(labels, body, i)),
    decreases body, 2int, labels.len() - i,
{
    if i < 0 || i >= labels.len() {
        lemma_body_value_wf(body);
        crate::value::lemma_views_wf_iff(seq![body_value(body)]);
    } else {
        lemma_labels_node_wf(labels, body, i + 1);
        let inner = labels_node(labels, body, i + 1);
        let es = seq![(label_text(labels[i]), inner)];
        lemma_node_entries_wf_iff(es);
    }
}

/// The fold of a well-formed body yields well-formed keyed nodes.
pub proof fn lemma_body_nodes_wf(ss: Seq<StructureView>)
    requires
        structs_wf(ss),
    ensures
        node_keys_unique(body_nodes(ss)),
        node_entries_wf(body_nodes(ss)),
    decreases ss, 0int, 0int,
{
    if ss.len() > 0 {
        lemma_body_nodes_wf(ss.drop_last());
        lemma_struct_entry_wf(ss.last());
        lemma_insert_merge_wf(body_nodes(ss.drop_last()), struct_entry(ss.last()));
    }
}

/// A well-formed node projects to a well-formed value.
pub proof fn lemma_project_node_wf(n: NodeView)
    requires
        node_wf(n),
    ensures
        crate::value::view_wf(project_node(n)),
    decreases n, 1int,
{
    match n {
        NodeView::Empty => {},
        NodeView::Block(es) => {
            lemma_project_entries_wf(es);
            lemma_project_entries_keys(es);
        },
        NodeView::BlockBodies(vs) => {
            crate::value::lemma_views_wf_iff(vs);
        },
        NodeView::Value(_) => {},
    }
}

/// Projection of well-formed entries yields well-formed object entries.
pub proof fn lemma_project_entries_wf(es: Seq<(Seq<char>, NodeView)>)
    requires
        node_entries_wf(es),
    ensures
        crate::value::obj_entries_wf(project_entries(es)),
    decreases es, 0int,
{
    lemma_node_entries_wf_iff(es);
    lemma_project_entries_keys(es);
    crate::value::lemma_obj_entries_wf_iff(project_entries(es));
    assert forall|i: int| 0 <= i < project_entries(es).len() implies crate::value::view_wf(
        project_entries(es)[i].1,
    ) by {
        lemma_project_node_wf(es[i].1);
    }
}

/// A well-formed body converts to a well-formed value: every object in
/// the result, at any depth, has distinct keys.
pub proof fn lemma_body_value_wf(ss: Seq<StructureView>)
    requires
        structs_wf(ss),
    ensures
        crate::value::view_wf(body_value(ss)),
    decreases ss, 1int, 0int,
{
    lemma_body_nodes_wf(ss);
    lemma_project_entries_wf(body_nodes(ss));
    lemma_body_value_keys_unique(ss);
}

/// The transient per-key accumulator of the merge pass.
enum Node {
    /// The explicit empty state; never produced by the by-value fold
    /// below, kept as the stated base case of the node model.
    #[allow(dead_code)]
    Empty,
    /// A nested label mapping.
    Block(Vec<(String, Node)>),
    /// The already projected bodies of repeated unlabelled blocks.
    BlockBodies(Vec<Value>),
    /// A plain attribute value.
    Value(Value),
}

spec fn node_view(n: Node) -> NodeView
    decreases n,
{
    match n {
        Node::Empty => NodeView::Empty,
        Node::Block(es) => NodeView::Block(nodes_view(es@)),
        Node::BlockBodies(vs) => NodeView::BlockBodies(crate::value::seq_value_view(vs@)),
        Node::Value(v) => NodeView::Value(crate::value::value_view(v)),
    }
}

spec fn nodes_view(es: Seq<(String, Node)>) -> Seq<(Seq<char>, NodeView)>
    decreases es,
{
    if es.len() == 0 {
        Seq::empty()
    } else {
        nodes_view(es.drop_last()).push((es.last().0@, node_view(es.last().1)))
    }
}

proof fn lemma_nodes_view_len(es: Seq<(String, Node)>)
    ensures
        nodes_view(es).len() == es.len(),
    decreases es,
{
    if es.len() > 0 {
        lemma_nodes_view_len(es.drop_last());
    }
}

proof fn lemma_nodes_view_index(es: Seq<(String, Node)>, i: int)
    requires
        0 <= i < es.len(),
    ensures
        nodes_view(es).len() == es.len(),
        nodes_view(es)[i] == (es[i].0@, node_view(es[i].1)),
    decreases es,
{
    lemma_nodes_view_len(es);
    lemma_nodes_view_len(es.drop_last());
    if i < es.len() - 1 {
        lemma_nodes_view_index(es.drop_last(), i);
        assert(es.drop_last()[i] == es[i]);
    } else {
        assert(es[i] == es.last());
    }
}

proof fn lemma_nodes_view_push(es: Seq<(String, Node)>, p: (String, Node))
    ensures
        nodes_view(es.push(p)) == nodes_view(es).push((p.0@, node_view(p.1))),
{
    assert(es.push(p).drop_last() =~= es);
    assert(es.push(p).last() == p);
}

proof fn lemma_nodes_view_update(es: Seq<(String, Node)>, i: int, p: (String, Node))
    requires
        0 <= i < es.len(),
    ensures
        nodes_view(es.update(i, p)) =~= nodes_view(es).update(i, (p.0@, node_view(p.1))),
{
    lemma_nodes_view_len(es);
    lemma_nodes_view_len(es.update(i, p));
    assert forall|j: int| 0 <= j < es.len() implies nodes_view(es.update(i, p))[j] == nodes_view(
        es,
    ).update(i, (p.0@, node_view(p.1)))[j] by {
        lemma_nodes_view_index(es.update(i, p), j);
        lemma_nodes_view_index(es, j);
    }
}

/// Merges `b` into `a`: recursively for two label mappings, by
/// concatenation for two body collections, last write wins otherwise.
fn deep_merge(a: Node, b: Node) -> (r: Node)
    ensures
        node_view(r) == merge_node(node_view(a), node_view(b)),
    decreases node_view(b), 1int,
{
    match a {
        Node::Block(la) => match b {
            Node::Block(lb) => {
                proof {
                    assert(decreases_to!(node_view(b) => node_view(b)->Block_0));
                    assert(node_view(b)->Block_0 == nodes_view(lb@));
                }
                Node::Block(merge_entry_vecs(la, lb))
            },
            ob => ob,
        },
        Node::BlockBodies(va) => match b {
            Node::BlockBodies(vb) => {
                let mut va = va;
                let mut vb = vb;
                let ghost va0 = va@;
                let ghost vb0 = vb@;
                va.append(&mut vb);
                proof {
                    crate::value::lemma_seq_value_view_concat(va0, vb0);
                }
                Node::BlockBodies(va)
            },
            ob => ob,
        },
        _ => b,
    }
}

/// Folds every entry of `lb`, in order, into `la`.
fn merge_entry_vecs(la: Vec<(String, Node)>, lb: Vec<(String, Node)>) -> (r: Vec<(String, Node)>)
    ensures
        nodes_view(r@) == merge_entries(nodes_view(la@), nodes_view(lb@)),
    decreases nodes_view(lb@), 2int,
{
    let ghost all = lb@;
    let ghost la0 = la@;
    let mut acc = la;
    let mut rest = lb;
    let mut idx: usize = 0;
    let n0 = rest.len();
    proof {
        assert(all.len() == n0);
        assert(rest@ =~= all.skip(0));
        assert(all.take(0) =~= Seq::<(String, Node)>::empty());
        assert(nodes_view(acc@) == merge_entries(nodes_view(la0), nodes_view(all.take(0))));
    }
    while rest.len() > 0
        invariant
            all == lb@,
            la0 == la@,
            idx <= all.len(),
            all.len() <= usize::MAX,
            rest@ == all.skip(idx as int),
            nodes_view(acc@) == merge_entries(nodes_view(la0), nodes_view(all.take(idx as int))),
        decreases rest.len(),
    {
        proof {
            assert(rest@[0] == all[idx as int]);
            assert(all.skip(idx as int).remove(0) =~= all.skip(idx as int + 1));
            lemma_nodes_view_index(all, idx as int);
            assert(decreases_to!(nodes_view(all) => nodes_view(all)[idx as int]));
            assert(decreases_to!(nodes_view(all)[idx as int] => nodes_view(all)[idx as int].1));
        }
        let kn = rest.remove(0);
        proof {
            assert(kn == all[idx as int]);
            assert(node_view(kn.1) == nodes_view(all)[idx as int].1);
            assert(decreases_to!(nodes_view(all) => node_view(kn.1)));
            assert(nodes_view(lb@) == nodes_view(all));
        }
        acc = insert_node(acc, kn.0, kn.1);
        proof {
            assert(all.take(idx as int + 1).drop_last() =~= all.take(idx as int));
            assert(all.take(idx as int + 1).last() == all[idx as int]);
            assert(nodes_view(all.take(idx as int + 1)) == nodes_view(all.take(idx as int)).push(
                (all[idx as int].0@, node_view(all[idx as int].1)),
            )) by {
                lemma_nodes_view_push(all.take(idx as int), all[idx as int]);
                assert(all.take(idx as int).push(all[idx as int]) =~= all.take(idx as int + 1));
            }
            let s1 = nodes_view(all.take(idx as int + 1));
            assert(s1.drop_last() =~= nodes_view(all.take(idx as int)));
            assert(merge_entries(nodes_view(la0), s1) == insert_merge(
                merge_entries(nodes_view(la0), nodes_view(all.take(idx as int))),
                (all[idx as int].0@, node_view(all[idx as int].1)),
            ));
        }
        idx += 1;
    }
    proof {
        assert(all.take(idx as int) =~= all);
    }
    acc
}

/// The index of the first entry with the given key, if any.
fn find_node_index(es: &Vec<(String, Node)>, key: &String) -> (r: Option<usize>)
    ensures
        r matches Some(i) ==> find_key(nodes_view(es@), key@) == i as int,
        r is None ==> find_key(nodes_view(es@), key@) == -1,
{
    proof {
        lemma_nodes_view_len(es@);
        lemma_find_key_props(nodes_view(es@), key@);
    }
    let mut i: usize = 0;
    while i < es.len()
        invariant
            i <= es.len(),
            nodes_view(es@).len() == es@.len(),
            forall|j: int| 0 <= j < i ==> nodes_view(es@)[j].0 != key@,
            find_key(nodes_view(es@), key@) == -1 ==> (forall|j: int|
                0 <= j < es@.len() ==> nodes_view(es@)[j].0 != key@),
            find_key(nodes_view(es@), key@) != -1 ==> 0 <= find_key(nodes_view(es@), key@)
                < es@.len() && nodes_view(es@)[find_key(nodes_view(es@), key@)].0 == key@ && (
            forall|j: int| 0 <= j < find_key(nodes_view(es@), key@) ==> nodes_view(es@)[j].0 != key@),
        decreases es.len() - i,
    {
        proof {
            lemma_nodes_view_index(es@, i as int);
        }
        if es[i].0 == *key {
            return Some(i);
        }
        i += 1;
    }
    None
}

/// Inserts one keyed node into an entry list: an existing key keeps its
/// position and has the node merged in; a new key is appended.
fn insert_node(es: Vec<(String, Node)>, key: String, n: Node) -> (r: Vec<(String, Node)>)
    ensures
        nodes_view(r@) == insert_merge(nodes_view(es@), (key@, node_view(n))),
    decreases node_view(n), 2int,
{
    let ghost es0 = es@;
    proof {
        lemma_nodes_view_len(es0);
    }
    let found = find_node_index(&es, &key);
    let mut es = es;
    match found {
        Some(f) => {
            proof {
                lemma_find_key_props(nodes_view(es0), key@);
                lemma_nodes_view_index(es0, f as int);
            }
            let pair = es.remove(f);
            let merged = deep_merge(pair.1, n);
            es.insert(f, (key, merged));
            proof {
                assert(es@ =~= es0.update(f as int, (key, merged)));
                lemma_nodes_view_update(es0, f as int, (key, merged));
            }
            es
        },
        None => {
            es.push((key, n));
            proof {
                lemma_nodes_view_push(es0, (key, n));
            }
            es
        },
    }
}

/// Projects a node to its value: a single collected body collapses to
/// its plain object, repeated ones wrap in an array.
fn project_node_exec(n: Node) -> (r: Value)
    ensures
        crate::value::value_view(r) == project_node(node_view(n)),
    decreases node_view(n), 1int,
{
    match n {
        Node::Empty => Value::Null,
        Node::Block(es) => {
            proof {
                assert(decreases_to!(node_view(n) => node_view(n)->Block_0));
                assert(node_view(n)->Block_0 == nodes_view(es@));
            }
            Value::Object(ObjectMap { entries: project_entry_vec(es) })
        },
        Node::BlockBodies(vs) => {
            proof {
                crate::value::lemma_seq_value_view_len(vs@);
            }
            if vs.len() == 1 {
                let mut vs = vs;
                let ghost vs0 = vs@;
                let v = vs.pop().unwrap();
                proof {
                    crate::value::lemma_seq_value_view_index(vs0, 0);
                }
                v
            } else {
                Value::Array(vs)
            }
        },
        Node::Value(v) => v,
    }
}

/// Projects every entry of a keyed node list, keeping keys and order.
fn project_entry_vec(es: Vec<(String, Node)>) -> (r: Vec<(String, Value)>)
    ensures
        crate::value::entries_view(r@) == project_entries(nodes_view(es@)),
    decreases nodes_view(es@), 0int,
{
    let mut es = es;
    let ghost es0 = es@;
    let popped = es.pop();
    match popped {
        None => {
            let r: Vec<(String, Value)> = Vec::new();
            proof {
                assert(nodes_view(es0) =~= Seq::<(Seq<char>, NodeView)>::empty());
                assert(crate::value::entries_view(r@) =~= Seq::<(
                    Seq<char>,
                    crate::value::ValueView,
                )>::empty());
            }
            r
        },
        Some(pair) => {
            proof {
                lemma_nodes_view_len(es0);
                assert(es@ =~= es0.drop_last());
                assert(decreases_to!(nodes_view(es0) => nodes_view(es0).drop_last()));
                assert(nodes_view(es@) == nodes_view(es0).drop_last()) by {
                    assert(nodes_view(es0).drop_last() =~= nodes_view(es0.drop_last()));
                }
            }
            let mut r = project_entry_vec(es);
            proof {
                lemma_nodes_view_index(es0, es0.len() - 1);
                assert(nodes_view(es0)[es0.len() - 1] == (pair.0@, node_view(pair.1)));
                assert(decreases_to!(nodes_view(es0) => nodes_view(es0)[es0.len() - 1]));
                assert(decreases_to!(nodes_view(es0)[es0.len() - 1] => nodes_view(es0)[es0.len()
                    - 1].1));
            }
            let ghost prev = r@;
            let v = project_node_exec(pair.1);
            r.push((pair.0, v));
            proof {
                assert(r@.drop_last() =~= prev);
                assert(r@.last() == (pair.0, v));
                assert(nodes_view(es0).last() == (pair.0@, node_view(pair.1)));
                assert(crate::value::entries_view(r@) == project_entries(nodes_view(es0)));
            }
            r
        },
    }
}

/// Collapses a block's labels around its projected body, innermost
/// first.
fn labels_to_node(labels: Vec<BlockLabel>, body: Body) -> (r: Node)
    ensures
        node_view(r) == labels_node(
            crate::structure::labels_view(labels@),
            structures_view(body.0@),
            0,
        ),
    decreases structures_view(body.0@), 2int, 0int,
{
    let ghost lv = crate::structure::labels_view(labels@);
    let ghost bodyv = structures_view(body.0@);
    let ghost orig = labels@;
    let v = body_to_value_exec(body);
    let ghost vv = crate::value::value_view(v);
    let mut body_vec: Vec<Value> = Vec::new();
    body_vec.push(v);
    let ghost bvs = body_vec@;
    let first = Node::BlockBodies(body_vec);
    proof {
        assert(bvs.len() == 1 && bvs.last() == v);
        assert(bvs.drop_last() =~= Seq::<Value>::empty());
        assert(crate::value::seq_value_view(bvs.drop_last()) =~= Seq::<
            crate::value::ValueView,
        >::empty());
        assert(crate::value::seq_value_view(bvs) =~= seq![vv]);
        assert(node_view(first) == labels_node(lv, bodyv, orig.len() as int)) by {
            assert(seq![vv] =~= seq![body_value(bodyv)]);
        }
    }
    let mut node = first;
    let mut labels = labels;
    while labels.len() > 0
        invariant
            lv == crate::structure::labels_view(orig),
            lv.len() == orig.len(),
            labels@.len() <= orig.len(),
            labels@ == orig.take(labels@.len() as int),
            node_view(node) == labels_node(lv, bodyv, labels@.len() as int),
        decreases labels.len(),
    {
        let ghost k = labels@.len() as int;
        proof {
            assert(labels@ == orig.take(k));
            assert(orig.take(k)[k - 1] == orig[k - 1]);
        }
        let l = labels.pop().unwrap();
        proof {
            assert(l == orig[k - 1]);
            assert(labels@ =~= orig.take(k - 1)) by {
                assert(orig.take(k).drop_last() =~= orig.take(k - 1));
            }
        }
        let text = l.into_inner();
        let inner = node;
        let pair = (text, inner);
        let ghost pv = (pair.0@, node_view(pair.1));
        let mut entry_vec: Vec<(String, Node)> = Vec::new();
        entry_vec.push(pair);
        proof {
            assert(label_text(lv[k - 1]) == pv.0);
            assert(entry_vec@.drop_last() =~= Seq::<(String, Node)>::empty());
            assert(nodes_view(entry_vec@.drop_last()) =~= Seq::<(Seq<char>, NodeView)>::empty());
            assert(nodes_view(entry_vec@) =~= seq![pv]);
        }
        node = Node::Block(entry_vec);
        proof {
            assert(seq![pv] =~= seq![(label_text(lv[k - 1]), labels_node(lv, bodyv, k))]);
            assert(node_view(node) == labels_node(lv, bodyv, k - 1));
            assert(labels@ =~= orig.take(labels@.len() as int));
        }
    }
    proof {
        assert(labels@.len() == 0);
    }
    node
}

/// The keyed node one structure contributes.
fn struct_to_entry(s: Structure) -> (r: (String, Node))
    ensures
        r.0@ == struct_entry(crate::structure::structure_view(s)).0,
        node_view(r.1) == struct_entry(crate::structure::structure_view(s)).1,
    decreases crate::structure::structure_view(s), 3int, 0int,
{
    match s {
        Structure::Attribute(a) => (a.key, Node::Value(a.value)),
        Structure::Block(b) => {
            proof {
                let sv = crate::structure::structure_view(s);
                assert(sv == StructureView::Block(crate::structure::block_view(b)));
                assert(decreases_to!(sv => sv->Block_0));
                assert(decreases_to!(sv->Block_0 => sv->Block_0.body));
                assert(sv->Block_0.body == structures_view(b.body.0@));
            }
            (b.identifier, labels_to_node(b.labels, b.body))
        },
    }
}

/// Folds a list of structures, left to right, into keyed nodes.
fn structures_into_nodes(ss: Vec<Structure>) -> (r: Vec<(String, Node)>)
    ensures
        nodes_view(r@) == body_nodes(structures_view(ss@)),
    decreases structures_view(ss@), 0int, 0int,
{
    let mut ss = ss;
    let ghost ss0 = ss@;
    let popped = ss.pop();
    match popped {
        None => {
            let r: Vec<(String, Node)> = Vec::new();
            proof {
                assert(structures_view(ss0) =~= Seq::<StructureView>::empty());
                assert(nodes_view(r@) =~= Seq::<(Seq<char>, NodeView)>::empty());
            }
            r
        },
        Some(s) => {
            proof {
                crate::structure::lemma_structures_view_len(ss0);
                assert(ss@ =~= ss0.drop_last());
                assert(decreases_to!(structures_view(ss0) => structures_view(ss0).drop_last()));
                assert(structures_view(ss@) == structures_view(ss0).drop_last()) by {
                    assert(structures_view(ss0).drop_last() =~= structures_view(ss0.drop_last()));
                }
            }
            let m = structures_into_nodes(ss);
            proof {
                crate::structure::lemma_structures_view_index(ss0, ss0.len() - 1);
                assert(structures_view(ss0)[ss0.len() - 1] == crate::structure::structure_view(
                    s,
                ));
                assert(decreases_to!(structures_view(ss0) => structures_view(ss0)[ss0.len()
                    - 1]));
            }
            let kn = struct_to_entry(s);
            let r = insert_node(m, kn.0, kn.1);
            proof {
                assert(structures_view(ss0).last() == crate::structure::structure_view(s));
                assert(nodes_view(r@) == body_nodes(structures_view(ss0)));
            }
            r
        },
    }
}

/// Converts a body into its canonical value.
fn body_to_value_exec(body: Body) -> (r: Value)
    ensures
        crate::value::value_view(r) == body_value(structures_view(body.0@)),
    decreases structures_view(body.0@), 1int, 0int,
{
    let ghost bodyv = structures_view(body.0@);
    let ss = body.0;
    let nodes = structures_into_nodes(ss);
    let entries = project_entry_vec(nodes);
    proof {
        assert(crate::value::entries_view(entries@) == project_entries(body_nodes(bodyv)));
    }
    Value::Object(ObjectMap { entries })
}

impl Body {
    /// Converts this document into the canonical JSON-compatible value:
    /// an ordered object with one entry per distinct attribute key or
    /// block identifier, labelled blocks flattened into nested objects,
    /// repeated unlabelled blocks collected into arrays, and conflicts
    /// resolved deterministically by last write wins.  The resulting
    /// object's keys are distinct (see [`lemma_body_value_keys_unique`]).
    pub fn into_value(self) -> (r: Value)
        ensures
            r@ == body_value(self@),
            structs_wf(self@) ==> crate::value::view_wf(r@),
    {
        proof {
            if structs_wf(self@) {
                lemma_body_value_wf(self@);
            }
        }
        body_to_value_exec(self)
    }
}

} // verus!
