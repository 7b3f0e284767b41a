//! A readable rendering of an object's structure, one field per line.
//!
//! The rendering is a sequence of pieces: text, and non-integral numbers,
//! which the caller renders (they are kept as written here).
use vstd::prelude::*;

use crate::number::{decimal, push_decimal};
use crate::value::{
    lemma_object_fields, lemma_view_values, strings_view, view_values, Expr, ExprView, FloatLit, FloatView, Object,
    ObjectView, Value, ValueView,
};

verus! {

#[derive(Debug, PartialEq)]
pub enum DumpPiece {
    Text(String),
    Float(FloatLit),
}

pub enum PieceView {
    Text(Seq<char>),
    Float(FloatView),
}

impl View for DumpPiece {
    type V = PieceView;

    open spec fn view(&self) -> PieceView {
        match self {
            DumpPiece::Text(s) => PieceView::Text(s@),
            DumpPiece::Float(f) => PieceView::Float(f@),
        }
    }
}

pub open spec fn pieces_view(s: Seq<DumpPiece>) -> Seq<PieceView> {
    s.map_values(|p: DumpPiece| p@)
}

pub open spec fn text(s: Seq<char>) -> Seq<PieceView> {
    seq![PieceView::Text(s)]
}

/// `n` indentation steps of four spaces.
pub open spec fn indent(n: nat) -> Seq<PieceView>
    decreases n,
{
    if n == 0 {
        Seq::empty()
    } else {
        indent((n - 1) as nat) + text("    "@)
    }
}

/// Names joined by dots.
pub open spec fn dotted(p: Seq<Seq<char>>) -> Seq<PieceView>
    decreases p.len(),
{
    if p.len() == 0 {
        Seq::empty()
    } else if p.len() == 1 {
        text(p[0])
    } else {
        dotted(p.drop_last()) + text("."@) + text(p.last())
    }
}

pub open spec fn expr_pieces(e: ExprView) -> Seq<PieceView> {
    match e {
        ExprView::Symbol(s) => text(s),
        ExprView::Access(p) => dotted(p),
        ExprView::RelAccess(p) => text("."@) + dotted(p),
    }
}

/// A value; an object within it is rendered one level deeper.
pub open spec fn value_pieces(v: ValueView, level: nat) -> Seq<PieceView>
    decreases v,
{
    match v {
        ValueView::String(s) => text("\""@) + text(s) + text("\""@),
        ValueView::Number(n) => text(decimal(n as nat)),
        ValueView::Float(f) => seq![PieceView::Float(f)],
        ValueView::Bool(b) => if b {
            text("true"@)
        } else {
            text("false"@)
        },
        ValueView::Object(o) => object_pieces(o, level + 1),
        ValueView::Expr(e) => expr_pieces(e),
        ValueView::Vec(items) => text("["@) + items_pieces(items, level) + text("]"@),
    }
}

/// List items separated by `, `.
pub open spec fn items_pieces(items: Seq<ValueView>, level: nat) -> Seq<PieceView>
    decreases items,
{
    if items.len() == 0 {
        Seq::empty()
    } else if items.len() == 1 {
        value_pieces(items[0], level)
    } else {
        items_pieces(items.drop_last(), level) + text(", "@) + value_pieces(items.last(), level)
    }
}

/// `{`, a line per field indented one step deeper than `level`, and `}` at
/// `level`.
pub open spec fn object_pieces(o: ObjectView, level: nat) -> Seq<PieceView>
    decreases o,
{
    text("{\n"@) + fields_pieces(o.fields, level) + indent(level) + text("}\n"@)
}

pub open spec fn fields_pieces(fields: Seq<(Seq<char>, ValueView)>, level: nat) -> Seq<PieceView>
    decreases fields,
{
    if fields.len() == 0 {
        Seq::empty()
    } else {
        fields_pieces(fields.drop_last(), level) + field_pieces(fields.last(), level)
    }
}

pub open spec fn field_pieces(f: (Seq<char>, ValueView), level: nat) -> Seq<PieceView>
    decreases f,
{
    indent(level + 1) + text(f.0) + text(" => "@) + value_pieces(f.1, level) + text("\n"@)
}

/// How many objects deep `v` nests.
pub open spec fn value_height(v: ValueView) -> nat
    decreases v,
{
    match v {
        ValueView::Object(o) => 1 + object_height(o),
        ValueView::Vec(items) => items_height(items),
        _ => 0,
    }
}

pub open spec fn items_height(items: Seq<ValueView>) -> nat
    decreases items,
{
    if items.len() == 0 {
        0
    } else {
        let a = items_height(items.drop_last());
        let b = value_height(items.last());
        if a >= b {
            a
        } else {
            b
        }
    }
}

pub open spec fn object_height(o: ObjectView) -> nat
    decreases o,
{
    fields_height(o.fields)
}

pub open spec fn fields_height(fields: Seq<(Seq<char>, ValueView)>) -> nat
    decreases fields,
{
    if fields.len() == 0 {
        0
    } else {
        let a = fields_height(fields.drop_last());
        let b = value_height(fields.last().1);
        if a >= b {
            a
        } else {
            b
        }
    }
}

proof fn lemma_items_height(items: Seq<ValueView>, r: nat)
    ensures
        items_height(items) <= r <==> forall|i: int| 0 <= i < items.len() ==> #[trigger] value_height(items[i]) <= r,
    decreases items.len(),
{
    if items.len() > 0 {
        lemma_items_height(items.drop_last(), r);
        assert forall|i: int| 0 <= i < items.len() - 1 implies #[trigger] items.drop_last()[i] == items[i] by {}
        if items_height(items) <= r {
            assert forall|i: int| 0 <= i < items.len() implies #[trigger] value_height(items[i]) <= r by {
                if i < items.len() - 1 {
                    assert(value_height(items.drop_last()[i]) <= r);
                }
            }
        } else {
            if items_height(items.drop_last()) > r {
                let i = choose|i: int| 0 <= i < items.len() - 1 && !(value_height(items.drop_last()[i]) <= r);
                assert(items.drop_last()[i] == items[i]);
            } else {
                assert(value_height(items[items.len() - 1]) > r);
            }
        }
    }
}

proof fn lemma_fields_height(fields: Seq<(Seq<char>, ValueView)>, r: nat)
    ensures
        fields_height(fields) <= r <==> forall|i: int|
            0 <= i < fields.len() ==> #[trigger] value_height(fields[i].1) <= r,
    decreases fields.len(),
{
    if fields.len() > 0 {
        lemma_fields_height(fields.drop_last(), r);
        assert forall|i: int| 0 <= i < fields.len() - 1 implies #[trigger] fields.drop_last()[i] == fields[i] by {}
        if fields_height(fields) <= r {
            assert forall|i: int| 0 <= i < fields.len() implies #[trigger] value_height(fields[i].1) <= r by {
                if i < fields.len() - 1 {
                    assert(value_height(fields.drop_last()[i].1) <= r);
                }
            }
        } else {
            if fields_height(fields.drop_last()) > r {
                let i = choose|i: int|
                    0 <= i < fields.len() - 1 && !(value_height(fields.drop_last()[i].1) <= r);
                assert(fields.drop_last()[i] == fields[i]);
            } else {
                assert(value_height(fields[fields.len() - 1].1) > r);
            }
        }
    }
}

fn emit(out: &mut Vec<DumpPiece>, p: DumpPiece)
    ensures
        pieces_view(final(out)@) == pieces_view(old(out)@).push(p@),
{
    let ghost pv = p@;
    out.push(p);
    proof {
        assert(pieces_view(out@) =~= pieces_view(old(out)@).push(pv));
    }
}

fn emit_text(out: &mut Vec<DumpPiece>, s: &str)
    ensures
        pieces_view(final(out)@) == pieces_view(old(out)@) + text(s@),
{
    emit(out, DumpPiece::Text(s.to_owned()));
    proof {
        assert(pieces_view(old(out)@).push(PieceView::Text(s@)) =~= pieces_view(old(out)@) + text(s@));
    }
}

/// Appends `p` joined by dots.
fn emit_dotted(out: &mut Vec<DumpPiece>, p: &Vec<String>)
    ensures
        pieces_view(final(out)@) == pieces_view(old(out)@) + dotted(strings_view(p@)),
{
    let ghost names = strings_view(p@);
    let n = p.len();
    for i in 0..n
        invariant
            n == p@.len(),
            names == strings_view(p@),
            pieces_view(out@) == pieces_view(old(out)@) + dotted(names.take(i as int)),
    {
        let ghost before = pieces_view(out@);
        if i > 0 {
            emit_text(out, ".");
        }
        emit_text(out, p[i].as_str());
        proof {
            let t = names.take(i + 1);
            assert(names[i as int] == p@[i as int]@);
            assert(t.last() == names[i as int]);
            if i > 0 {
                assert(t.drop_last() =~= names.take(i as int));
                assert(pieces_view(out@) =~= before + text("."@) + text(t.last()));
            } else {
                assert(names.take(0) =~= Seq::<Seq<char>>::empty());
                assert(pieces_view(out@) =~= before + text(t[0]));
            }
        }
    }
    proof {
        assert(names.take(n as int) =~= names);
    }
}

fn emit_expr(out: &mut Vec<DumpPiece>, e: &Expr)
    ensures
        pieces_view(final(out)@) == pieces_view(old(out)@) + expr_pieces(e@),
{
    match e {
        Expr::Symbol(s) => emit_text(out, s.as_str()),
        Expr::Access(p) => emit_dotted(out, p),
        Expr::RelAccess(p) => {
            emit_text(out, ".");
            emit_dotted(out, p);
            proof {
                assert(pieces_view(out@) =~= pieces_view(old(out)@) + (text("."@) + dotted(strings_view(p@))));
            }
        },
    }
}

/// Appends `n` indentation steps.
fn emit_indent(out: &mut Vec<DumpPiece>, n: usize)
    ensures
        pieces_view(final(out)@) == pieces_view(old(out)@) + indent(n as nat),
{
    proof {
        assert(pieces_view(out@) =~= pieces_view(out@) + indent(0));
    }
    for i in 0..n
        invariant
            pieces_view(out@) == pieces_view(old(out)@) + indent(i as nat),
    {
        let ghost before = pieces_view(out@);
        emit_text(out, "    ");
        proof {
            assert(indent((i + 1) as nat) == indent(i as nat) + text("    "@));
            assert(pieces_view(out@) =~= pieces_view(old(out)@) + indent((i + 1) as nat));
        }
    }
}

fn emit_value(out: &mut Vec<DumpPiece>, v: &Value, level: usize)
    requires
        level + value_height(v@) <= usize::MAX,
    ensures
        pieces_view(final(out)@) == pieces_view(old(out)@) + value_pieces(v@, level as nat),
    decreases v,
{
    match v {
        Value::String(s) => {
            emit_text(out, "\"");
            emit_text(out, s.as_str());
            emit_text(out, "\"");
            proof {
                assert(pieces_view(out@) =~= pieces_view(old(out)@) + value_pieces(v@, level as nat));
            }
        },
        Value::Number(n) => {
            let mut digits = String::new();
            push_decimal(&mut digits, *n as usize);
            proof {
                assert(digits@ =~= decimal(*n as nat));
            }
            emit_text(out, digits.as_str());
        },
        Value::Float(f) => {
            emit(out, DumpPiece::Float(f.clone()));
            proof {
                assert(pieces_view(out@) =~= pieces_view(old(out)@) + value_pieces(v@, level as nat));
            }
        },
        Value::Bool(b) => {
            if *b {
                emit_text(out, "true");
            } else {
                emit_text(out, "false");
            }
        },
        Value::Object(o) => {
            emit_object(out, o, level + 1);
        },
        Value::Expr(e) => {
            emit_expr(out, e);
        },
        Value::Vec(items) => {
            let ghost vs = view_values(items@);
            proof {
                lemma_view_values(items@);
                lemma_items_height(vs, items_height(vs));
            }
            emit_text(out, "[");
            let ghost start = pieces_view(out@);
            proof {
                assert(start =~= start + items_pieces(vs.take(0), level as nat));
            }
            let n = items.len();
            for i in 0..n
                invariant
                    n == items@.len(),
                    *v == Value::Vec(*items),
                    vs == view_values(items@),
                    vs.len() == n,
                    forall|j: int| 0 <= j < n ==> #[trigger] vs[j] == items@[j]@,
                    forall|j: int| 0 <= j < n ==> #[trigger] value_height(vs[j]) <= items_height(vs),
                    level + items_height(vs) <= usize::MAX,
                    pieces_view(out@) == start + items_pieces(vs.take(i as int), level as nat),
            {
                let ghost before = pieces_view(out@);
                if i > 0 {
                    emit_text(out, ", ");
                }
                assert(vs[i as int] == items@[i as int]@);
                assert(value_height(items@[i as int]@) <= items_height(vs));
                proof {
                    assert(decreases_to!(*v => (*v)->Vec_0));
                    assert(decreases_to!(*items => items@));
                    assert(decreases_to!(items@ => items@[i as int]));
                }
                emit_value(out, &items[i], level);
                proof {
                    let t = vs.take(i + 1);
                    assert(t.last() == vs[i as int]);
                    if i > 0 {
                        assert(t.drop_last() =~= vs.take(i as int));
                        assert(pieces_view(out@) =~= start + items_pieces(t, level as nat));
                    } else {
                        assert(pieces_view(out@) =~= start + items_pieces(t, level as nat));
                    }
                }
            }
            emit_text(out, "]");
            proof {
                assert(vs.take(n as int) =~= vs);
                assert(pieces_view(out@) =~= pieces_view(old(out)@) + value_pieces(v@, level as nat));
            }
        },
    }
}

fn emit_object(out: &mut Vec<DumpPiece>, o: &Object, level: usize)
    requires
        level + object_height(o@) <= usize::MAX,
    ensures
        pieces_view(final(out)@) == pieces_view(old(out)@) + object_pieces(o@, level as nat),
    decreases o,
{
    let ghost fs = o@.fields;
    proof {
        lemma_object_fields(*o);
        lemma_fields_height(fs, fields_height(fs));
    }
    emit_text(out, "{\n");
    let ghost start = pieces_view(out@);
    proof {
        assert(start =~= start + fields_pieces(fs.take(0), level as nat));
    }
    let n = o.fields.len();
    for i in 0..n
        invariant
            n == o.fields@.len(),
            fs == o@.fields,
            fs.len() == n,
            forall|j: int| 0 <= j < n ==> #[trigger] fs[j] == (o.fields@[j].key@, o.fields@[j].value@),
            forall|j: int| 0 <= j < n ==> #[trigger] value_height(fs[j].1) <= fields_height(fs),
            level + fields_height(fs) <= usize::MAX,
            pieces_view(out@) == start + fields_pieces(fs.take(i as int), level as nat),
    {
        let ghost before = pieces_view(out@);
        emit_indent(out, level);
        emit_text(out, "    ");
        emit_text(out, o.fields[i].key.as_str());
        emit_text(out, " => ");
        assert(value_height(fs[i as int].1) <= fields_height(fs));
        emit_value(out, &o.fields[i].value, level);
        emit_text(out, "\n");
        proof {
            let t = fs.take(i + 1);
            assert(t.last() == fs[i as int]);
            assert(t.drop_last() =~= fs.take(i as int));
            assert(indent((level + 1) as nat) == indent(level as nat) + text("    "@));
            assert(pieces_view(out@) =~= before + field_pieces(fs[i as int], level as nat));
            assert(pieces_view(out@) =~= start + fields_pieces(t, level as nat));
        }
    }
    emit_indent(out, level);
    emit_text(out, "}\n");
    proof {
        assert(fs.take(n as int) =~= fs);
        assert(pieces_view(out@) =~= pieces_view(old(out)@) + object_pieces(o@, level as nat));
    }
}

/// Whether `v` nests at most `room` objects deep.
fn value_fits(v: &Value, room: usize) -> (b: bool)
    ensures
        b == (value_height(v@) <= room),
    decreases v,
{
    match v {
        Value::Object(o) => {
            if room == 0 {
                false
            } else {
                object_fits(o, room - 1)
            }
        },
        Value::Vec(items) => {
            let ghost vs = view_values(items@);
            proof {
                lemma_view_values(items@);
                lemma_items_height(vs, room as nat);
            }
            let n = items.len();
            for i in 0..n
                invariant
                    n == items@.len(),
                    *v == Value::Vec(*items),
                    vs == view_values(items@),
                    vs.len() == n,
                    forall|j: int| 0 <= j < n ==> #[trigger] vs[j] == items@[j]@,
                    forall|j: int| 0 <= j < i ==> #[trigger] value_height(vs[j]) <= room,
            {
                proof {
                    assert(decreases_to!(*v => (*v)->Vec_0));
                    assert(decreases_to!(*items => items@));
                    assert(decreases_to!(items@ => items@[i as int]));
                }
                if !value_fits(&items[i], room) {
                    assert(vs[i as int] == items@[i as int]@);
                    assert(!(value_height(vs[i as int]) <= room));
                    proof {
                        lemma_items_height(vs, room as nat);
                    }
                    return false;
                }
                assert(vs[i as int] == items@[i as int]@);
            }
            true
        },
        _ => true,
    }
}

/// Whether `o` nests at most `room` objects deep.
fn object_fits(o: &Object, room: usize) -> (b: bool)
    ensures
        b == (object_height(o@) <= room),
    decreases o,
{
    let ghost fs = o@.fields;
    proof {
        lemma_object_fields(*o);
        lemma_fields_height(fs, room as nat);
    }
    let n = o.fields.len();
    for i in 0..n
        invariant
            n == o.fields@.len(),
            fs == o@.fields,
            fs.len() == n,
            forall|j: int| 0 <= j < n ==> #[trigger] fs[j] == (o.fields@[j].key@, o.fields@[j].value@),
            forall|j: int| 0 <= j < i ==> #[trigger] value_height(fs[j].1) <= room,
    {
        if !value_fits(&o.fields[i].value, room) {
            assert(fs[i as int].1 == o.fields@[i as int].value@);
            assert(!(value_height(fs[i as int].1) <= room));
            proof {
                lemma_fields_height(fs, room as nat);
            }
            return false;
        }
        assert(fs[i as int].1 == o.fields@[i as int].value@);
    }
    true
}

impl Object {
    /// The object's rendering at indentation `level`: `{`, a line
    /// `key => value` per field one step deeper, and `}` at `level`; an object
    /// within a value is rendered one level deeper still.  `None` where
    /// `level` plus the nesting depth would not fit in a `usize`.
    pub fn dump_pieces(&self, level: usize) -> (r: Option<Vec<DumpPiece>>)
        ensures
            r is Some <==> level + object_height(self@) <= usize::MAX,
            r matches Some(p) ==> pieces_view(p@) == object_pieces(self@, level as nat),
    {
        if !object_fits(self, usize::MAX - level) {
            return None;
        }
        let mut out: Vec<DumpPiece> = Vec::new();
        emit_object(&mut out, self, level);
        proof {
            assert(pieces_view(Seq::<DumpPiece>::empty()) =~= Seq::empty());
            assert(Seq::<PieceView>::empty() + object_pieces(self@, level as nat) =~= object_pieces(
                self@,
                level as nat,
            ));
        }
        Some(out)
    }
}

} // verus!
