//! The canonical serializer: renders a [`Body`] back to deterministic
//! text with fixed whitespace and quoting rules, walking the original
//! tree (never the merged value), so labels and block repetition are
//! kept verbatim.
//!
//! Layout rules: every attribute starts on a fresh line as
//! `key = value`; a blank line comes before an attribute whose value is
//! a collection when an attribute precedes it, and before every block
//! except one opening its body; arrays and objects spread one element
//! per line at one deeper indent, collapsing to `[]` and `{}` when
//! empty; attribute keys stay bare while object keys and string values
//! are double-quoted, with no further escaping.

use crate::structure::Body;
use crate::structure::LabelView;
use crate::structure::Structure;
use crate::structure::structures_view;
use crate::structure::StructureView;
use crate::value::entries_view;
use crate::value::seq_value_view;
use crate::value::Value;
use crate::value::ValueView;
use vstd::prelude::*;

verus! {

/// The serializer's error: a failure of the caller's sink, passed on
/// verbatim.  Rendering itself cannot fail.
#[derive(Debug)]
pub enum Error {
    Io(std::io::Error),
}

#[verifier::external_type_specification]
#[verifier::external_body]
pub struct ExIoError(std::io::Error);

/// What came last in the body being rendered, deciding the separator
/// before the next structure.
pub enum SerState {
    First,
    Attribute,
    Block,
}

/// The indent unit repeated `n` times.
pub open spec fn indent_text(unit: Seq<char>, n: nat) -> Seq<char>
    decreases n,
{
    if n == 0 {
        Seq::empty()
    } else {
        indent_text(unit, (n - 1) as nat) + unit
    }
}

/// The text of one value, rendered at the indentation `pad` with the
/// indent unit `unit`.
pub open spec fn render_value(v: ValueView, unit: Seq<char>, pad: Seq<char>) -> Seq<char>
    decreases v, 1int,
{
    match v {
        ValueView::Null => "null"@,
        ValueView::Bool(b) => if b {
            "true"@
        } else {
            "false"@
        },
        ValueView::Number(n) => crate::number::spec_num_text(n),
        ValueView::String(s) => "\""@ + s + "\""@,
        ValueView::Array(vs) => if vs.len() == 0 {
            "[]"@
        } else {
            "["@ + render_elems(vs, unit, pad + unit) + "\n"@ + pad + "]"@
        },
        ValueView::Object(es) => if es.len() == 0 {
            "{}"@
        } else {
            "{"@ + render_obj_entries(es, unit, pad + unit) + "\n"@ + pad + "}"@
        },
    }
}

/// The array elements, one per line, comma-separated.
pub open spec fn render_elems(vs: Seq<ValueView>, unit: Seq<char>, pad: Seq<char>) -> Seq<char>
    decreases vs, 0int,
{
    if vs.len() == 0 {
        Seq::empty()
    } else {
        render_elems(vs.drop_last(), unit, pad) + (if vs.len() == 1 {
            "\n"@
        } else {
            ",\n"@
        }) + pad + render_value(vs.last(), unit, pad)
    }
}

/// The object entries, one `"key" = value` per line.
pub open spec fn render_obj_entries(
    es: Seq<(Seq<char>, ValueView)>,
    unit: Seq<char>,
    pad: Seq<char>,
) -> Seq<char>
    decreases es, 0int,
{
    if es.len() == 0 {
        Seq::empty()
    } else {
        render_obj_entries(es.drop_last(), unit, pad) + "\n"@ + pad + "\""@ + es.last().0 + "\""@
            + " = "@ + render_value(es.last().1, unit, pad)
    }
}

/// The labels of a block, each followed by one space; identifiers bare,
/// string literals quoted.
pub open spec fn render_labels(ls: Seq<LabelView>) -> Seq<char>
    decreases ls,
{
    if ls.len() == 0 {
        Seq::empty()
    } else {
        render_labels(ls.drop_last()) + (match ls.last() {
            LabelView::Identifier(s) => s,
            LabelView::StringLit(s) => "\""@ + s + "\""@,
        }) + " "@
    }
}

/// The state after one structure.
pub open spec fn next_state(s: StructureView) -> SerState {
    match s {
        StructureView::Attribute(_) => SerState::Attribute,
        StructureView::Block(_) => SerState::Block,
    }
}

/// The text of one structure, after what `st` says came before it.
pub open spec fn render_struct(
    s: StructureView,
    unit: Seq<char>,
    pad: Seq<char>,
    st: SerState,
) -> Seq<char>
    decreases s, 1int,
{
    match s {
        StructureView::Attribute(a) => {
            let coll = a.value is Array || a.value is Object;
            let blank: Seq<char> = if st is Block || (st is Attribute && coll) {
                "\n"@
            } else {
                Seq::empty()
            };
            blank + "\n"@ + pad + a.key + " = "@ + render_value(a.value, unit, pad)
        },
        StructureView::Block(b) => {
            let blank: Seq<char> = if !(st is First) {
                "\n\n"@ + pad
            } else {
                Seq::empty()
            };
            blank + b.identifier + " "@ + render_labels(b.labels) + "{"@ + render_structs(
                b.body,
                unit,
                pad + unit,
                SerState::First,
            ) + (if b.body.len() > 0 {
                "\n"@ + pad
            } else {
                Seq::empty()
            }) + "}"@
        },
    }
}

/// The text of a whole structure sequence, threading the separator
/// state left to right.
pub open spec fn render_structs(
    ss: Seq<StructureView>,
    unit: Seq<char>,
    pad: Seq<char>,
    st: SerState,
) -> Seq<char>
    decreases ss, 0int,
{
    if ss.len() == 0 {
        Seq::empty()
    } else {
        render_struct(ss[0], unit, pad, st) + render_structs(
            ss.skip(1),
            unit,
            pad,
            next_state(ss[0]),
        )
    }
}

/// The canonical text of a whole document: two-space indentation, no
/// initial indent.
pub open spec fn render_document(ss: Seq<StructureView>) -> Seq<char> {
    render_structs(ss, "  "@, Seq::empty(), SerState::First)
}

/// Decides spacing while rendering: the indent unit, the depth at
/// which a serialize call starts, and whether a previous call has
/// already emitted something.
#[derive(Debug)]
pub struct Formatter {
    pub current_indent: usize,
    pub has_value: bool,
    pub indent: String,
}

impl Formatter {
    /// A formatter using the given indent unit.
    pub fn with_indent(indent: String) -> (r: Formatter)
        ensures
            r.current_indent == 0,
            r.has_value == false,
            r.indent == indent,
    {
        Formatter { current_indent: 0, has_value: false, indent }
    }
}

impl Default for Formatter {
    /// Two spaces of indentation.
    fn default() -> (r: Formatter)
        ensures
            r.current_indent == 0,
            r.has_value == false,
            r.indent@ == "  "@,
    {
        Formatter::with_indent("  ".to_owned())
    }
}

/// Renders bodies into an owned text buffer.
#[derive(Debug)]
pub struct Serializer {
    pub out: String,
    pub formatter: Formatter,
}

impl Serializer {
    /// A serializer with the default formatter and an empty buffer.
    pub fn new() -> (r: Serializer)
        ensures
            r.out@ == Seq::<char>::empty(),
            r.formatter.current_indent == 0,
            r.formatter.has_value == false,
            r.formatter.indent@ == "  "@,
    {
        Serializer { out: String::new(), formatter: Formatter::default() }
    }

    /// A serializer with the given formatter and an empty buffer.
    pub fn with_formatter(formatter: Formatter) -> (r: Serializer)
        ensures
            r.out@ == Seq::<char>::empty(),
            r.formatter == formatter,
    {
        Serializer { out: String::new(), formatter }
    }

    /// The rendered text collected so far.
    pub fn into_inner(self) -> (r: String)
        ensures
            r == self.out,
    {
        self.out
    }

    /// Appends the canonical text of `body`, starting at the
    /// formatter's current indentation.  Never fails.
    pub fn serialize(&mut self, body: &Body) -> (r: Result<(), Error>)
        ensures
            r is Ok,
            final(self).out@ == old(self).out@ + render_structs(
                body@,
                old(self).formatter.indent@,
                indent_text(old(self).formatter.indent@, old(self).formatter.current_indent as nat),
                SerState::First,
            ),
            final(self).formatter.indent == old(self).formatter.indent,
            final(self).formatter.current_indent == old(self).formatter.current_indent,
            final(self).formatter.has_value == (old(self).formatter.has_value || body@.len() > 0),
    {
        let mut pad = String::new();
        let mut i: usize = 0;
        while i < self.formatter.current_indent
            invariant
                i <= self.formatter.current_indent,
                self == old(self),
                pad@ == indent_text(self.formatter.indent@, i as nat),
            decreases self.formatter.current_indent - i,
        {
            pad.append(self.formatter.indent.as_str());
            i += 1;
        }
        proof {
            crate::structure::lemma_structures_view_len(body.0@);
        }
        write_structs(&mut self.out, &body.0, self.formatter.indent.as_str(), pad.as_str());
        if body.0.len() > 0 {
            self.formatter.has_value = true;
        }
        Ok(())
    }
}

/// Appends one structure after another to `out`, threading the
/// separator state left to right.
fn write_structs(out: &mut String, ss: &Vec<Structure>, unit: &str, pad: &str)
    ensures
        final(out)@ == old(out)@ + render_structs(
            structures_view(ss@),
            unit@,
            pad@,
            SerState::First,
        ),
    decreases structures_view(ss@), 0int,
{
    let ghost ssv = structures_view(ss@);
    let ghost base = out@;
    proof {
        crate::structure::lemma_structures_view_len(ss@);
    }
    let mut st = SerState::First;
    let ghost stv = SerState::First;
    let mut i: usize = 0;
    proof {
        assert(ssv.skip(0) =~= ssv);
    }
    while i < ss.len()
        invariant
            i <= ss.len(),
            ssv == structures_view(ss@),
            ssv.len() == ss@.len(),
            st == stv,
            base + render_structs(ssv, unit@, pad@, SerState::First) == out@ + render_structs(
                ssv.skip(i as int),
                unit@,
                pad@,
                stv,
            ),
        decreases ss.len() - i,
    {
        proof {
            crate::structure::lemma_structures_view_index(ss@, i as int);
            assert(ssv.skip(i as int)[0] == ssv[i as int]);
            assert(ssv.skip(i as int).skip(1) =~= ssv.skip(i as int + 1));
            assert(decreases_to!(ssv => ssv[i as int]));
        }
        write_struct(out, &ss[i], unit, pad, &st);
        st = match &ss[i] {
            Structure::Attribute(_) => SerState::Attribute,
            Structure::Block(_) => SerState::Block,
        };
        proof {
            stv = next_state(ssv[i as int]);
        }
        i += 1;
    }
    proof {
        assert(ssv.skip(i as int) =~= Seq::<StructureView>::empty());
        assert(out@ =~= out@ + Seq::<char>::empty());
        assert(base + render_structs(ssv, unit@, pad@, SerState::First) =~= out@);
    }
}

/// Appends one structure, with the separator its predecessor calls for.
fn write_struct(out: &mut String, s: &Structure, unit: &str, pad: &str, st: &SerState)
    ensures
        final(out)@ == old(out)@ + render_struct(
            crate::structure::structure_view(*s),
            unit@,
            pad@,
            *st,
        ),
    decreases crate::structure::structure_view(*s), 1int,
{
    let ghost sv = crate::structure::structure_view(*s);
    match s {
        Structure::Attribute(a) => {
            let coll = a.value.is_array() || a.value.is_object();
            let needs_blank = match st {
                SerState::Block => true,
                SerState::Attribute => coll,
                SerState::First => false,
            };
            if needs_blank {
                out.append("\n");
            }
            out.append("\n");
            out.append(pad);
            out.append(a.key.as_str());
            out.append(" = ");
            write_value(out, &a.value, unit, pad);
        },
        Structure::Block(b) => {
            let is_first = match st {
                SerState::First => true,
                _ => false,
            };
            if !is_first {
                out.append("\n\n");
                out.append(pad);
            }
            out.append(b.identifier.as_str());
            out.append(" ");
            write_labels(out, &b.labels);
            out.append("{");
            let mut deeper = pad.to_owned();
            deeper.append(unit);
            proof {
                assert(sv == StructureView::Block(crate::structure::block_view(*b)));
                assert(decreases_to!(sv => sv->Block_0));
                assert(decreases_to!(sv->Block_0 => sv->Block_0.body));
                assert(sv->Block_0.body == structures_view(b.body.0@));
            }
            write_structs(out, &b.body.0, unit, deeper.as_str());
            proof {
                crate::structure::lemma_structures_view_len(b.body.0@);
            }
            if b.body.0.len() > 0 {
                out.append("\n");
                out.append(pad);
            }
            out.append("}");
        },
    }
}

/// Appends the labels of a block, each followed by one space.
fn write_labels(out: &mut String, ls: &Vec<crate::structure::BlockLabel>)
    ensures
        final(out)@ == old(out)@ + render_labels(crate::structure::labels_view(ls@)),
{
    let ghost lv = crate::structure::labels_view(ls@);
    let ghost base = out@;
    let mut i: usize = 0;
    while i < ls.len()
        invariant
            i <= ls.len(),
            lv == crate::structure::labels_view(ls@),
            lv.len() == ls@.len(),
            out@ == base + render_labels(lv.take(i as int)),
        decreases ls.len() - i,
    {
        proof {
            assert(lv.take(i as int + 1).drop_last() =~= lv.take(i as int));
            assert(lv.take(i as int + 1).last() == lv[i as int]);
        }
        match &ls[i] {
            crate::structure::BlockLabel::Identifier(s) => {
                out.append(s.as_str());
            },
            crate::structure::BlockLabel::StringLit(s) => {
                out.append("\"");
                out.append(s.as_str());
                out.append("\"");
            },
        }
        out.append(" ");
        i += 1;
    }
    proof {
        assert(lv.take(i as int) =~= lv);
    }
}

/// Appends the text of one value.
fn write_value(out: &mut String, v: &Value, unit: &str, pad: &str)
    ensures
        final(out)@ == old(out)@ + render_value(crate::value::value_view(*v), unit@, pad@),
    decreases crate::value::value_view(*v), 1int,
{
    let ghost vv = crate::value::value_view(*v);
    match v {
        Value::Null => {
            out.append("null");
        },
        Value::Bool(b) => {
            if *b {
                out.append("true");
            } else {
                out.append("false");
            }
        },
        Value::Number(n) => {
            let t = n.to_text();
            out.append(t.as_str());
        },
        Value::String(s) => {
            out.append("\"");
            out.append(s.as_str());
            out.append("\"");
        },
        Value::Array(vs) => {
            proof {
                crate::value::lemma_seq_value_view_len(vs@);
            }
            if vs.len() == 0 {
                out.append("[]");
            } else {
                out.append("[");
                let mut deeper = pad.to_owned();
                deeper.append(unit);
                let ghost dv = pad@ + unit@;
                let ghost evs = seq_value_view(vs@);
                let ghost base = out@;
                let mut i: usize = 0;
                while i < vs.len()
                    invariant
                        i <= vs.len(),
                        *v == Value::Array(*vs),
                        vv == ValueView::Array(evs),
                        evs == seq_value_view(vs@),
                        evs.len() == vs@.len(),
                        deeper@ == dv,
                        out@ == base + render_elems(evs.take(i as int), unit@, dv),
                    decreases vs.len() - i,
                {
                    proof {
                        crate::value::lemma_seq_value_view_index(vs@, i as int);
                        assert(evs.take(i as int + 1).drop_last() =~= evs.take(i as int));
                        assert(evs.take(i as int + 1).last() == evs[i as int]);
                        assert(decreases_to!(vv => vv->Array_0));
                        assert(vv->Array_0 == evs);
                        vstd::seq::axiom_seq_index_decreases(evs, i as int);
                    }
                    if i == 0 {
                        out.append("\n");
                    } else {
                        out.append(",\n");
                    }
                    out.append(deeper.as_str());
                    write_value(out, &vs[i], unit, deeper.as_str());
                    i += 1;
                }
                proof {
                    assert(evs.take(i as int) =~= evs);
                }
                out.append("\n");
                out.append(pad);
                out.append("]");
            }
        },
        Value::Object(m) => {
            proof {
                crate::value::lemma_entries_view_len(m.entries@);
            }
            if m.entries.len() == 0 {
                out.append("{}");
            } else {
                out.append("{");
                let mut deeper = pad.to_owned();
                deeper.append(unit);
                let ghost dv = pad@ + unit@;
                let ghost ees = entries_view(m.entries@);
                let ghost base = out@;
                let mut i: usize = 0;
                while i < m.entries.len()
                    invariant
                        i <= m.entries.len(),
                        *v == Value::Object(*m),
                        vv == ValueView::Object(ees),
                        ees == entries_view(m.entries@),
                        ees.len() == m.entries@.len(),
                        deeper@ == dv,
                        out@ == base + render_obj_entries(ees.take(i as int), unit@, dv),
                    decreases m.entries.len() - i,
                {
                    proof {
                        crate::value::lemma_entries_view_index(m.entries@, i as int);
                        assert(ees.take(i as int + 1).drop_last() =~= ees.take(i as int));
                        assert(ees.take(i as int + 1).last() == ees[i as int]);
                        assert(decreases_to!(vv => vv->Object_0));
                        assert(vv->Object_0 == ees);
                        vstd::seq::axiom_seq_index_decreases(ees, i as int);
                        assert(decreases_to!(ees[i as int] => ees[i as int].1));
                    }
                    out.append("\n");
                    out.append(deeper.as_str());
                    out.append("\"");
                    out.append(m.entries[i].0.as_str());
                    out.append("\"");
                    out.append(" = ");
                    write_value(out, &m.entries[i].1, unit, deeper.as_str());
                    i += 1;
                }
                proof {
                    assert(ees.take(i as int) =~= ees);
                }
                out.append("\n");
                out.append(pad);
                out.append("}");
            }
        },
    }
}

/// The canonical text of a body, with the default two-space indent.
/// Rendering never fails.
pub fn to_string(body: &Body) -> (r: Result<String, Error>)
    ensures
        r matches Ok(s) && s@ == render_document(body@),
{
    let mut ser = Serializer::new();
    let res = ser.serialize(body);
    proof {
        assert(indent_text("  "@, 0) =~= Seq::<char>::empty());
        assert(Seq::<char>::empty() + render_document(body@) =~= render_document(body@));
    }
    match res {
        Ok(_) => Ok(ser.into_inner()),
        Err(e) => Err(e),
    }
}

/// The canonical text of a body as UTF-8 bytes.  Rendering never fails.
pub fn to_vec(body: &Body) -> (r: Result<Vec<u8>, Error>)
    ensures
        r matches Ok(v) && v@ == vstd::utf8::encode_utf8(render_document(body@)),
{
    match to_string(body) {
        Ok(s) => Ok(vstd::slice::slice_to_vec(s.as_str().as_bytes())),
        Err(e) => Err(e),
    }
}

/// Relies on `std::io::Write::write_all`: writes the whole buffer to
/// the sink, or reports the sink's own error.
#[verifier::external_body]
fn write_all_to<W: std::io::Write>(writer: &mut W, buf: &Vec<u8>) -> Result<(), std::io::Error> {
    writer.write_all(buf.as_slice())
}

/// Writes the canonical text of a body to an output sink.  Fails only
/// when the sink's own write fails, and passes that error on verbatim.
pub fn to_writer<W: std::io::Write>(writer: &mut W, body: &Body) -> (r: Result<(), Error>)
    ensures
        r matches Err(e) ==> e is Io,
{
    let bytes = match to_vec(body) {
        Ok(v) => v,
        Err(e) => {
            return Err(e);
        },
    };
    match write_all_to(writer, &bytes) {
        Ok(_) => Ok(()),
        Err(e) => Err(Error::Io(e)),
    }
}

} // verus!
