//! The ordered, declaration-faithful form of a configuration document:
//! a [`Body`] is a sequence of attributes and nested, possibly labelled
//! blocks, kept exactly as declared.

use crate::value::Value;
use crate::value::value_view;
use crate::value::ValueView;
use vstd::prelude::*;

verus! {

/// The abstract value of a [`BlockLabel`].
pub enum LabelView {
    Identifier(Seq<char>),
    StringLit(Seq<char>),
}

/// The abstract value of an [`Attribute`].
pub struct AttributeView {
    pub key: Seq<char>,
    pub value: ValueView,
}

/// The abstract value of a [`Block`].
pub struct BlockView {
    pub identifier: Seq<char>,
    pub labels: Seq<LabelView>,
    pub body: Seq<StructureView>,
}

/// The abstract value of a [`Structure`].
pub enum StructureView {
    Attribute(AttributeView),
    Block(BlockView),
}

/// A configuration document, or the contents of a block: an ordered
/// sequence of structures.  Duplicate attribute keys and repeated block
/// identifiers are legal here; they are resolved only by the merge into
/// a [`Value`].
#[derive(Debug)]
pub struct Body(pub Vec<Structure>);

/// One element of a body: an attribute or a block.
#[derive(Debug)]
pub enum Structure {
    Attribute(Attribute),
    Block(Block),
}

/// A single `key = value` entry.
#[derive(Debug)]
pub struct Attribute {
    pub key: String,
    pub value: Value,
}

/// A named, optionally labelled container holding a nested body.
#[derive(Debug)]
pub struct Block {
    pub identifier: String,
    pub labels: Vec<BlockLabel>,
    pub body: Body,
}

/// A block label: a bare identifier, or a quoted string literal.  Both
/// hold a string; they differ only in how the serializer writes them.
#[derive(Debug, Clone)]
pub enum BlockLabel {
    Identifier(String),
    StringLit(String),
}

/// The abstract value of a label.
pub open spec fn label_view(l: BlockLabel) -> LabelView {
    match l {
        BlockLabel::Identifier(s) => LabelView::Identifier(s@),
        BlockLabel::StringLit(s) => LabelView::StringLit(s@),
    }
}

/// The abstract value of a label sequence.
pub open spec fn labels_view(ls: Seq<BlockLabel>) -> Seq<LabelView> {
    Seq::new(ls.len(), |i: int| label_view(ls[i]))
}

/// The abstract value of a structure sequence.
pub open spec fn structures_view(ss: Seq<Structure>) -> Seq<StructureView>
    decreases ss,
{
    if ss.len() == 0 {
        Seq::empty()
    } else {
        structures_view(ss.drop_last()).push(structure_view(ss.last()))
    }
}

/// The abstract value of a structure.
pub open spec fn structure_view(s: Structure) -> StructureView
    decreases s,
{
    match s {
        Structure::Attribute(a) => StructureView::Attribute(
            AttributeView { key: a.key@, value: value_view(a.value) },
        ),
        Structure::Block(b) => StructureView::Block(block_view(b)),
    }
}

/// The abstract value of a block.
pub open spec fn block_view(b: Block) -> BlockView
    decreases b,
{
    BlockView {
        identifier: b.identifier@,
        labels: labels_view(b.labels@),
        body: structures_view(b.body.0@),
    }
}

impl View for Body {
    type V = Seq<StructureView>;

    open spec fn view(&self) -> Seq<StructureView> {
        structures_view(self.0@)
    }
}

impl View for Structure {
    type V = StructureView;

    open spec fn view(&self) -> StructureView {
        structure_view(*self)
    }
}

impl View for Attribute {
    type V = AttributeView;

    open spec fn view(&self) -> AttributeView {
        AttributeView { key: self.key@, value: value_view(self.value) }
    }
}

impl View for Block {
    type V = BlockView;

    open spec fn view(&self) -> BlockView {
        block_view(*self)
    }
}

impl View for BlockLabel {
    type V = LabelView;

    open spec fn view(&self) -> LabelView {
        label_view(*self)
    }
}

/// Views distribute over indexing into a structure sequence.
pub proof fn lemma_structures_view_index(ss: Seq<Structure>, i: int)
    requires
        0 <= i < ss.len(),
    ensures
        structures_view(ss).len() == ss.len(),
        structures_view(ss)[i] == structure_view(ss[i]),
    decreases ss,
{
    lemma_structures_view_len(ss);
    lemma_structures_view_len(ss.drop_last());
    if i < ss.len() - 1 {
        lemma_structures_view_index(ss.drop_last(), i);
        assert(ss.drop_last()[i] == ss[i]);
    } else {
        assert(ss[i] == ss.last());
    }
}

/// The length of a viewed structure sequence.
pub proof fn lemma_structures_view_len(ss: Seq<Structure>)
    ensures
        structures_view(ss).len() == ss.len(),
    decreases ss,
{
    if ss.len() > 0 {
        lemma_structures_view_len(ss.drop_last());
    }
}

impl Body {
    /// An empty body.
    pub fn new() -> (r: Body)
        ensures
            r@ == Seq::<StructureView>::empty(),
    {
        Body(Vec::new())
    }

    /// The structures of this body, in declaration order.
    pub fn into_inner(self) -> (r: Vec<Structure>)
        ensures
            structures_view(r@) == self@,
    {
        self.0
    }

    /// A borrowed view of the structures, in declaration order.
    pub fn iter(&self) -> (r: &Vec<Structure>)
        ensures
            structures_view(r@) == self@,
    {
        &self.0
    }

    /// A builder that collects structures into a body.
    pub fn builder() -> (r: BodyBuilder)
        ensures
            r@ == Seq::<StructureView>::empty(),
    {
        BodyBuilder(Vec::new())
    }
}

impl Default for Body {
    fn default() -> (r: Body)
        ensures
            r@ == Seq::<StructureView>::empty(),
    {
        Body(Vec::new())
    }
}

/// Collects structures, in order, into a [`Body`].
#[derive(Debug)]
pub struct BodyBuilder(pub Vec<Structure>);

impl View for BodyBuilder {
    type V = Seq<StructureView>;

    open spec fn view(&self) -> Seq<StructureView> {
        structures_view(self.0@)
    }
}

/// Appends each structure of `src`, in order, to `dst`.
fn append_structures(dst: &mut Vec<Structure>, src: Vec<Structure>)
    ensures
        final(dst)@ == old(dst)@ + src@,
{
    let mut rest = src;
    while rest.len() > 0
        invariant
            dst@ + rest@ == old(dst)@ + src@,
        decreases rest.len(),
    {
        let s = rest.remove(0);
        dst.push(s);
    }
    proof {
        assert(dst@ =~= dst@ + rest@);
    }
}

/// Viewing distributes over appending structure sequences.
pub proof fn lemma_structures_view_push(ss: Seq<Structure>, s: Structure)
    ensures
        structures_view(ss.push(s)) == structures_view(ss).push(structure_view(s)),
{
    assert(ss.push(s).drop_last() =~= ss);
    assert(ss.push(s).last() == s);
}

impl BodyBuilder {
    /// Adds an attribute.
    pub fn add_attribute(self, attr: Attribute) -> (r: BodyBuilder)
        ensures
            r@ == self@.push(StructureView::Attribute(attr@)),
    {
        self.add_structure(Structure::Attribute(attr))
    }

    /// Adds each attribute, in order.
    pub fn add_attributes(self, attrs: Vec<Attribute>) -> (r: BodyBuilder)
        ensures
            r@ == self@ + Seq::new(attrs@.len(), |i: int| StructureView::Attribute(attrs@[i]@)),
    {
        let ghost all = attrs@;
        let mut b = self;
        let mut rest = attrs;
        let mut idx: usize = 0;
        let n0 = rest.len();
        proof {
            assert(all.len() == n0);
            assert(rest@ =~= all.skip(0));
            assert(b@ =~= b@ + Seq::new(all.take(0).len(), |i: int| StructureView::Attribute(
                all.take(0)[i]@,
            )));
        }
        let ghost start = b@;
        while rest.len() > 0
            invariant
                idx <= all.len(),
                all.len() <= usize::MAX,
                rest@ == all.skip(idx as int),
                b@ == start + Seq::new(
                    all.take(idx as int).len(),
                    |i: int| StructureView::Attribute(all.take(idx as int)[i]@),
                ),
            decreases rest.len(),
        {
            proof {
                assert(rest@[0] == all[idx as int]);
                assert(all.skip(idx as int).remove(0) =~= all.skip(idx as int + 1));
            }
            let a = rest.remove(0);
            b = b.add_attribute(a);
            proof {
                assert(b@ =~= start + Seq::new(
                    all.take(idx as int + 1).len(),
                    |i: int| StructureView::Attribute(all.take(idx as int + 1)[i]@),
                ));
            }
            idx += 1;
        }
        proof {
            assert(all.take(idx as int) =~= all);
            assert(b@ =~= start + Seq::new(all.len(), |i: int| StructureView::Attribute(
                all[i]@,
            )));
        }
        b
    }

    /// Adds a block.
    pub fn add_block(self, block: Block) -> (r: BodyBuilder)
        ensures
            r@ == self@.push(StructureView::Block(block@)),
    {
        self.add_structure(Structure::Block(block))
    }

    /// Adds each block, in order.
    pub fn add_blocks(self, blocks: Vec<Block>) -> (r: BodyBuilder)
        ensures
            r@ == self@ + Seq::new(blocks@.len(), |i: int| StructureView::Block(blocks@[i]@)),
    {
        let ghost all = blocks@;
        let mut b = self;
        let mut rest = blocks;
        let mut idx: usize = 0;
        let n0 = rest.len();
        proof {
            assert(all.len() == n0);
            assert(rest@ =~= all.skip(0));
            assert(b@ =~= b@ + Seq::new(all.take(0).len(), |i: int| StructureView::Block(
                all.take(0)[i]@,
            )));
        }
        let ghost start = b@;
        while rest.len() > 0
            invariant
                idx <= all.len(),
                all.len() <= usize::MAX,
                rest@ == all.skip(idx as int),
                b@ == start + Seq::new(
                    all.take(idx as int).len(),
                    |i: int| StructureView::Block(all.take(idx as int)[i]@),
                ),
            decreases rest.len(),
        {
            proof {
                assert(rest@[0] == all[idx as int]);
                assert(all.skip(idx as int).remove(0) =~= all.skip(idx as int + 1));
            }
            let blk = rest.remove(0);
            b = b.add_block(blk);
            proof {
                assert(b@ =~= start + Seq::new(
                    all.take(idx as int + 1).len(),
                    |i: int| StructureView::Block(all.take(idx as int + 1)[i]@),
                ));
            }
            idx += 1;
        }
        proof {
            assert(all.take(idx as int) =~= all);
            assert(b@ =~= start + Seq::new(all.len(), |i: int| StructureView::Block(all[i]@)));
        }
        b
    }

    /// Adds a structure.
    pub fn add_structure(self, structure: Structure) -> (r: BodyBuilder)
        ensures
            r@ == self@.push(structure@),
    {
        let mut v = self.0;
        proof {
            lemma_structures_view_push(v@, structure);
        }
        let ghost before = v@;
        v.push(structure);
        proof {
            assert(v@ == before.push(structure));
        }
        BodyBuilder(v)
    }

    /// Adds each structure, in order.
    pub fn add_structures(self, structures: Vec<Structure>) -> (r: BodyBuilder)
        ensures
            r@ == self@ + structures_view(structures@),
    {
        let mut v = self.0;
        let ghost before = v@;
        append_structures(&mut v, structures);
        proof {
            lemma_structures_view_concat(before, v@.skip(before.len() as int));
            assert(v@.skip(before.len() as int) =~= structures@);
        }
        BodyBuilder(v)
    }

    /// Finishes the body.
    pub fn build(self) -> (r: Body)
        ensures
            r@ == self@,
    {
        Body(self.0)
    }
}

/// Viewing distributes over concatenating structure sequences.
pub proof fn lemma_structures_view_concat(xs: Seq<Structure>, ys: Seq<Structure>)
    ensures
        structures_view(xs + ys) == structures_view(xs) + structures_view(ys),
    decreases ys,
{
    lemma_structures_view_len(xs);
    lemma_structures_view_len(ys);
    if ys.len() == 0 {
        assert(xs + ys =~= xs);
        assert(structures_view(xs) + structures_view(ys) =~= structures_view(xs));
    } else {
        lemma_structures_view_concat(xs, ys.drop_last());
        assert((xs + ys).drop_last() =~= xs + ys.drop_last());
        assert((xs + ys).last() == ys.last());
        lemma_structures_view_len(ys.drop_last());
        assert(structures_view(xs) + structures_view(ys) =~= (structures_view(xs)
            + structures_view(ys.drop_last())).push(structure_view(ys.last())));
    }
}

impl Attribute {
    /// A new `key = value` entry.
    pub fn new(key: String, value: Value) -> (r: Attribute)
        ensures
            r == (Attribute { key, value }),
    {
        Attribute { key, value }
    }
}

impl Block {
    /// A new block from its parts.
    pub fn new(identifier: String, labels: Vec<BlockLabel>, body: Body) -> (r: Block)
        ensures
            r == (Block { identifier, labels, body }),
    {
        Block { identifier, labels, body }
    }

    /// A builder for a block with the given identifier.
    pub fn builder(identifier: String) -> (r: BlockBuilder)
        ensures
            r@ == (BlockView {
                identifier: identifier@,
                labels: Seq::empty(),
                body: Seq::empty(),
            }),
    {
        BlockBuilder::new(identifier)
    }
}

impl BlockLabel {
    /// A label written as a bare identifier.
    pub fn identifier(s: String) -> (r: BlockLabel)
        ensures
            r@ == LabelView::Identifier(s@),
    {
        BlockLabel::Identifier(s)
    }

    /// A label written as a quoted string literal.
    pub fn string_lit(s: String) -> (r: BlockLabel)
        ensures
            r@ == LabelView::StringLit(s@),
    {
        BlockLabel::StringLit(s)
    }

    /// The string this label holds, whichever way it is written.
    pub fn into_inner(self) -> (r: String)
        ensures
            r@ == (match self@ {
                LabelView::Identifier(s) => s,
                LabelView::StringLit(s) => s,
            }),
    {
        match self {
            BlockLabel::Identifier(s) => s,
            BlockLabel::StringLit(s) => s,
        }
    }
}

/// Collects the labels and body of a [`Block`].
#[derive(Debug)]
pub struct BlockBuilder {
    pub identifier: String,
    pub labels: Vec<BlockLabel>,
    pub body: BodyBuilder,
}

impl View for BlockBuilder {
    type V = BlockView;

    open spec fn view(&self) -> BlockView {
        BlockView {
            identifier: self.identifier@,
            labels: labels_view(self.labels@),
            body: structures_view(self.body.0@),
        }
    }
}

impl BlockBuilder {
    /// A builder for a block with the given identifier.
    pub fn new(identifier: String) -> (r: BlockBuilder)
        ensures
            r@ == (BlockView {
                identifier: identifier@,
                labels: Seq::empty(),
                body: Seq::empty(),
            }),
    {
        let r = BlockBuilder { identifier, labels: Vec::new(), body: Body::builder() };
        proof {
            assert(labels_view(r.labels@) =~= Seq::<LabelView>::empty());
        }
        r
    }

    /// Adds one label.
    pub fn add_label(self, label: BlockLabel) -> (r: BlockBuilder)
        ensures
            r@ == (BlockView {
                identifier: self@.identifier,
                labels: self@.labels.push(label@),
                body: self@.body,
            }),
    {
        let mut labels = self.labels;
        let ghost before = labels@;
        labels.push(label);
        proof {
            assert(labels_view(labels@) =~= labels_view(before).push(label_view(label)));
        }
        BlockBuilder { identifier: self.identifier, labels, body: self.body }
    }

    /// Adds each label, in order.
    pub fn add_labels(self, labels: Vec<BlockLabel>) -> (r: BlockBuilder)
        ensures
            r@.identifier == self@.identifier,
            r@.body == self@.body,
            r@.labels == self@.labels + labels_view(labels@),
    {
        let ghost all = labels@;
        let mut b = self;
        let mut rest = labels;
        let mut idx: usize = 0;
        let n0 = rest.len();
        proof {
            assert(all.len() == n0);
            assert(rest@ =~= all.skip(0));
            assert(b@.labels =~= b@.labels + labels_view(all.take(0)));
        }
        let ghost start = b@.labels;
        while rest.len() > 0
            invariant
                idx <= all.len(),
                all.len() <= usize::MAX,
                rest@ == all.skip(idx as int),
                b@.identifier == self@.identifier,
                b@.body == self@.body,
                b@.labels == start + labels_view(all.take(idx as int)),
            decreases rest.len(),
        {
            proof {
                assert(rest@[0] == all[idx as int]);
                assert(all.skip(idx as int).remove(0) =~= all.skip(idx as int + 1));
            }
            let l = rest.remove(0);
            b = b.add_label(l);
            proof {
                assert(b@.labels =~= start + labels_view(all.take(idx as int + 1)));
            }
            idx += 1;
        }
        proof {
            assert(all.take(idx as int) =~= all);
            assert(b@.labels =~= start + labels_view(all));
        }
        b
    }

    /// Adds an attribute to the block's body.
    pub fn add_attribute(self, attr: Attribute) -> (r: BlockBuilder)
        ensures
            r@ == (BlockView {
                identifier: self@.identifier,
                labels: self@.labels,
                body: self@.body.push(StructureView::Attribute(attr@)),
            }),
    {
        BlockBuilder {
            identifier: self.identifier,
            labels: self.labels,
            body: self.body.add_attribute(attr),
        }
    }

    /// Adds each attribute, in order, to the block's body.
    pub fn add_attributes(self, attrs: Vec<Attribute>) -> (r: BlockBuilder)
        ensures
            r@ == (BlockView {
                identifier: self@.identifier,
                labels: self@.labels,
                body: self@.body + Seq::new(
                    attrs@.len(),
                    |i: int| StructureView::Attribute(attrs@[i]@),
                ),
            }),
    {
        BlockBuilder {
            identifier: self.identifier,
            labels: self.labels,
            body: self.body.add_attributes(attrs),
        }
    }

    /// Adds each block, in order, to the block's body.
    pub fn add_blocks(self, blocks: Vec<Block>) -> (r: BlockBuilder)
        ensures
            r@ == (BlockView {
                identifier: self@.identifier,
                labels: self@.labels,
                body: self@.body + Seq::new(
                    blocks@.len(),
                    |i: int| StructureView::Block(blocks@[i]@),
                ),
            }),
    {
        BlockBuilder {
            identifier: self.identifier,
            labels: self.labels,
            body: self.body.add_blocks(blocks),
        }
    }

    /// Adds a nested block to the block's body.
    pub fn add_block(self, block: Block) -> (r: BlockBuilder)
        ensures
            r@ == (BlockView {
                identifier: self@.identifier,
                labels: self@.labels,
                body: self@.body.push(StructureView::Block(block@)),
            }),
    {
        BlockBuilder {
            identifier: self.identifier,
            labels: self.labels,
            body: self.body.add_block(block),
        }
    }

    /// Adds a structure to the block's body.
    pub fn add_structure(self, structure: Structure) -> (r: BlockBuilder)
        ensures
            r@ == (BlockView {
                identifier: self@.identifier,
                labels: self@.labels,
                body: self@.body.push(structure@),
            }),
    {
        BlockBuilder {
            identifier: self.identifier,
            labels: self.labels,
            body: self.body.add_structure(structure),
        }
    }

    /// Adds each structure, in order, to the block's body.
    pub fn add_structures(self, structures: Vec<Structure>) -> (r: BlockBuilder)
        ensures
            r@ == (BlockView {
                identifier: self@.identifier,
                labels: self@.labels,
                body: self@.body + structures_view(structures@),
            }),
    {
        BlockBuilder {
            identifier: self.identifier,
            labels: self.labels,
            body: self.body.add_structures(structures),
        }
    }

    /// Finishes the block.
    pub fn build(self) -> (r: Block)
        ensures
            r@ == self@,
    {
        Block { identifier: self.identifier, labels: self.labels, body: self.body.build() }
    }
}

} // verus!
