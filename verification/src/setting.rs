//! What the redefinition setting changes in reading: a read that refuses
//! redefined keys is the read that allows them, except that it fails with a
//! redefinition error where some object repeats a key.
use vstd::prelude::*;

use crate::laws::{keys_distinct, law_redefinition_last_wins, law_redefinition_refused, law_redefinition_setting_moot_without_repeats};
use crate::parser::{
    build, p_document, p_field, p_fields, p_fields_rest, p_item, p_items, p_items_rest, p_list, p_object,
    p_path, p_path_rest, p_top_field, p_top_rest, p_value, skip_comma, tok, ErrorView,
};
use crate::token::{TokKind, TokenView};
use crate::value::{ObjectView, ValueView};

verus! {

/// `v` with the redefinition setting of every object in it set to `a`.
pub open spec fn set_value(v: ValueView, a: bool) -> ValueView
    decreases v,
{
    match v {
        ValueView::Object(o) => ValueView::Object(set_object(o, a)),
        ValueView::Vec(items) => ValueView::Vec(set_items(items, a)),
        other => other,
    }
}

pub open spec fn set_items(items: Seq<ValueView>, a: bool) -> Seq<ValueView>
    decreases items,
{
    if items.len() == 0 {
        Seq::empty()
    } else {
        set_items(items.drop_last(), a).push(set_value(items.last(), a))
    }
}

pub open spec fn set_fields(fields: Seq<(Seq<char>, ValueView)>, a: bool) -> Seq<(Seq<char>, ValueView)>
    decreases fields,
{
    if fields.len() == 0 {
        Seq::empty()
    } else {
        set_fields(fields.drop_last(), a).push((fields.last().0, set_value(fields.last().1, a)))
    }
}

pub open spec fn set_object(o: ObjectView, a: bool) -> ObjectView
    decreases o,
{
    ObjectView { fields: set_fields(o.fields, a), max_depth: o.max_depth, allow_redefinition: a }
}

/// Whether `r` is a refusal of a redefined key.
pub open spec fn is_refusal<T>(r: Result<T, ErrorView>) -> bool {
    match r {
        Err(ErrorView::Redefinition { .. }) => true,
        _ => false,
    }
}

/// How a refusing read `s` and an allowing read `p` of the same tokens
/// relate: the allowing read never refuses; where the refusing read gives a
/// value, the allowing read gives it with the setting changed, at the same
/// position; where it fails otherwise than by refusing, both fail alike.
pub open spec fn agree<T>(s: (int, Result<T, ErrorView>), p: (int, Result<T, ErrorView>), lift: spec_fn(T) -> T) -> bool {
    &&& !is_refusal(p.1)
    &&& match s.1 {
        Ok(x) => p == (s.0, Ok::<T, ErrorView>(lift(x))),
        Err(_) => is_refusal(s.1) || p == s,
    }
}

pub open spec fn lift_value() -> spec_fn(ValueView) -> ValueView {
    |v: ValueView| set_value(v, true)
}

pub open spec fn lift_items() -> spec_fn(Seq<ValueView>) -> Seq<ValueView> {
    |s: Seq<ValueView>| set_items(s, true)
}

pub open spec fn lift_field() -> spec_fn((Seq<char>, ValueView)) -> (Seq<char>, ValueView) {
    |f: (Seq<char>, ValueView)| (f.0, set_value(f.1, true))
}

pub open spec fn lift_fields() -> spec_fn(Seq<(Seq<char>, ValueView)>) -> Seq<(Seq<char>, ValueView)> {
    |s: Seq<(Seq<char>, ValueView)>| set_fields(s, true)
}

pub open spec fn lift_object() -> spec_fn(ObjectView) -> ObjectView {
    |o: ObjectView| set_object(o, true)
}

proof fn lemma_lifts()
    ensures
        forall|v: ValueView| #[trigger] lift_value()(v) == set_value(v, true),
        forall|s: Seq<ValueView>| #[trigger] lift_items()(s) == set_items(s, true),
        forall|f: (Seq<char>, ValueView)| #[trigger] lift_field()(f) == (f.0, set_value(f.1, true)),
        forall|s: Seq<(Seq<char>, ValueView)>| #[trigger] lift_fields()(s) == set_fields(s, true),
        forall|o: ObjectView| #[trigger] lift_object()(o) == set_object(o, true),
{
}

proof fn lemma_set_items_push(s: Seq<ValueView>, v: ValueView)
    ensures
        set_items(s.push(v), true) == set_items(s, true).push(set_value(v, true)),
{
    assert(s.push(v).drop_last() =~= s);
}

proof fn lemma_set_fields_push(s: Seq<(Seq<char>, ValueView)>, f: (Seq<char>, ValueView))
    ensures
        set_fields(s.push(f), true) == set_fields(s, true).push((f.0, set_value(f.1, true))),
{
    assert(s.push(f).drop_last() =~= s);
}

proof fn lemma_set_fields_keys(fields: Seq<(Seq<char>, ValueView)>, a: bool)
    ensures
        set_fields(fields, a).len() == fields.len(),
        forall|i: int| 0 <= i < fields.len() ==> #[trigger] set_fields(fields, a)[i].0 == fields[i].0,
    decreases fields.len(),
{
    if fields.len() > 0 {
        lemma_set_fields_keys(fields.drop_last(), a);
        assert forall|i: int| 0 <= i < fields.len() implies #[trigger] set_fields(fields, a)[i].0
            == fields[i].0 by {
            if i < fields.len() - 1 {
                assert(set_fields(fields, a)[i] == set_fields(fields.drop_last(), a)[i]);
                assert(fields.drop_last()[i] == fields[i]);
            }
        }
    }
}

proof fn lemma_build_agree(fields: Seq<(Seq<char>, ValueView)>)
    ensures
        agree(
            match build(fields, false) {
                Ok(o) => (0int, Ok::<ObjectView, ErrorView>(o)),
                Err(k) => (0int, Err(ErrorView::Redefinition { key: k })),
            },
            match build(set_fields(fields, true), true) {
                Ok(o) => (0int, Ok::<ObjectView, ErrorView>(o)),
                Err(k) => (0int, Err(ErrorView::Redefinition { key: k })),
            },
            lift_object(),
        ),
{
    lemma_lifts();
    let sf = set_fields(fields, true);
    law_redefinition_last_wins(sf);
    law_redefinition_refused(fields);
    if build(fields, false) is Ok {
        lemma_set_fields_keys(fields, true);
        assert(keys_distinct(sf)) by {
            assert forall|i: int, j: int| 0 <= i < j < sf.len() implies #[trigger] sf[i].0 != #[trigger] sf[j].0 by {
                assert(sf[i].0 == fields[i].0);
                assert(sf[j].0 == fields[j].0);
            }
        }
        law_redefinition_setting_moot_without_repeats(sf, true);
    }
}


proof fn lemma_path_advances(ts: Seq<TokenView>, p: int, acc: Seq<Seq<char>>)
    ensures
        p_path_rest(ts, p, acc).0 >= p,
        p_path(ts, p, acc).0 >= p,
    decreases ts.len() - p,
{
    if tok(ts, p).kind == TokKind::Dot && tok(ts, p + 1).kind == TokKind::Identifier {
        lemma_path_advances(ts, p + 2, acc.push(tok(ts, p + 1).text));
    }
    if tok(ts, p).kind == TokKind::Identifier {
        lemma_path_advances(ts, p + 1, acc.push(tok(ts, p).text));
    }
}

// Reading with redefinition allowed never refuses.

proof fn nr_value(ts: Seq<TokenView>, p: int)
    requires
        p >= 0,
    ensures
        !is_refusal(p_value(ts, p, true).1),
        p_value(ts, p, true).0 > p,
    decreases ts.len() - p, 2int,
{
    lemma_path_advances(ts, p + 2, seq![tok(ts, p).text]);
    lemma_path_advances(ts, p + 1, Seq::empty());
    if tok(ts, p).kind == TokKind::OpenBracket {
        nr_list(ts, p);
    } else if tok(ts, p).kind == TokKind::OpenCurly {
        nr_object(ts, p + 1);
    }
}

proof fn nr_list(ts: Seq<TokenView>, p: int)
    requires
        p >= 0,
    ensures
        !is_refusal(p_list(ts, p, true).1),
        p_list(ts, p, true).0 >= p,
        tok(ts, p).kind == TokKind::OpenBracket ==> p_list(ts, p, true).0 > p,
    decreases ts.len() - p, 1int,
{
    if tok(ts, p).kind == TokKind::OpenBracket && tok(ts, p + 1).kind != TokKind::CloseBracket {
        nr_items(ts, p + 1);
    }
}

proof fn nr_item(ts: Seq<TokenView>, p: int)
    requires
        p >= 0,
    ensures
        !is_refusal(p_item(ts, p, true).1),
        p_item(ts, p, true).0 >= p,
        p_item(ts, p, true).0 == p ==> tok(ts, p).kind == TokKind::CloseBracket,
    decreases ts.len() - p, 3int,
{
    if tok(ts, p).kind != TokKind::CloseBracket {
        nr_value(ts, p);
    }
}

proof fn nr_items(ts: Seq<TokenView>, p: int)
    requires
        p >= 0,
    ensures
        !is_refusal(p_items(ts, p, true).1),
        p_items(ts, p, true).0 >= p,
    decreases ts.len() - p, 5int,
{
    nr_item(ts, p);
    let (q, r) = p_item(ts, p, true);
    if r is Ok && p < q <= ts.len() {
        nr_items_rest(ts, q, seq![r->Ok_0]);
    }
}

proof fn nr_items_rest(ts: Seq<TokenView>, p: int, acc: Seq<ValueView>)
    requires
        p >= 0,
    ensures
        !is_refusal(p_items_rest(ts, p, acc, true).1),
        p_items_rest(ts, p, acc, true).0 >= p,
    decreases ts.len() - p, 4int,
{
    let q = skip_comma(ts, p);
    nr_item(ts, q);
    let (q2, r) = p_item(ts, q, true);
    if r is Ok && p < q2 <= ts.len() {
        nr_items_rest(ts, q2, acc.push(r->Ok_0));
    }
}

proof fn nr_field(ts: Seq<TokenView>, p: int)
    requires
        p >= 0,
    ensures
        !is_refusal(p_field(ts, p, true).1),
        p_field(ts, p, true).0 >= p,
        p_field(ts, p, true).0 == p ==> tok(ts, p).kind != TokKind::Identifier,
    decreases ts.len() - p, 1int,
{
    if tok(ts, p).kind == TokKind::Identifier && tok(ts, p + 1).kind == TokKind::Assign {
        nr_value(ts, p + 2);
    }
}

proof fn nr_fields(ts: Seq<TokenView>, p: int)
    requires
        p >= 0,
    ensures
        !is_refusal(p_fields(ts, p, true).1),
        p_fields(ts, p, true).0 >= p,
    decreases ts.len() - p, 3int,
{
    nr_field(ts, p);
    let (q, r) = p_field(ts, p, true);
    if r is Ok && p < q <= ts.len() {
        nr_fields_rest(ts, q, seq![r->Ok_0]);
    }
}

proof fn nr_fields_rest(ts: Seq<TokenView>, p: int, acc: Seq<(Seq<char>, ValueView)>)
    requires
        p >= 0,
    ensures
        !is_refusal(p_fields_rest(ts, p, acc, true).1),
        p_fields_rest(ts, p, acc, true).0 >= p,
    decreases ts.len() - p, 2int,
{
    let q = skip_comma(ts, p);
    nr_field(ts, q);
    let (q2, r) = p_field(ts, q, true);
    if r is Ok && p < q2 <= ts.len() {
        nr_fields_rest(ts, q2, acc.push(r->Ok_0));
    }
}

proof fn nr_object(ts: Seq<TokenView>, p: int)
    requires
        p >= 0,
    ensures
        !is_refusal(p_object(ts, p, true).1),
        p_object(ts, p, true).0 >= p,
    decreases ts.len() - p, 4int,
{
    let p1 = if tok(ts, p).kind == TokKind::OpenCurly {
        p + 1
    } else {
        p
    };
    if tok(ts, p1).kind != TokKind::CloseCurly {
        nr_fields(ts, p1);
        let (q, r) = p_fields(ts, p1, true);
        if r is Ok {
            law_redefinition_last_wins(r->Ok_0);
        }
    }
}

proof fn nr_top_rest(ts: Seq<TokenView>, p: int, acc: Seq<(Seq<char>, ValueView)>)
    requires
        p >= 0,
    ensures
        !is_refusal(p_top_rest(ts, p, acc, true).1),
    decreases ts.len() - p,
{
    nr_field(ts, p);
    let (q, r) = p_top_field(ts, p, true);
    if r is Ok && p < q <= ts.len() {
        nr_top_rest(ts, q, acc.push(r->Ok_0));
    }
}

proof fn nr_document(ts: Seq<TokenView>)
    ensures
        !is_refusal(p_document(ts, true).1),
{
    if tok(ts, 0).kind != TokKind::Eof {
        nr_field(ts, 0);
        let (q, r) = p_top_field(ts, 0, true);
        if r is Ok {
            nr_top_rest(ts, q, seq![r->Ok_0]);
            let (q2, r2) = p_top_rest(ts, q, seq![r->Ok_0], true);
            if r2 is Ok {
                law_redefinition_last_wins(r2->Ok_0);
            }
        }
    }
}

proof fn lemma_value(ts: Seq<TokenView>, p: int)
    requires
        p >= 0,
    ensures
        agree(p_value(ts, p, false), p_value(ts, p, true), lift_value()),
        p_value(ts, p, false).0 > p,
    decreases ts.len() - p, 2int,
{
    lemma_lifts();
    nr_value(ts, p);
    lemma_path_advances(ts, p + 2, seq![tok(ts, p).text]);
    lemma_path_advances(ts, p + 1, Seq::empty());
    if tok(ts, p).kind == TokKind::OpenBracket {
        lemma_list(ts, p);
    } else if tok(ts, p).kind == TokKind::OpenCurly {
        lemma_object(ts, p + 1);
    }
}

proof fn lemma_list(ts: Seq<TokenView>, p: int)
    requires
        p >= 0,
    ensures
        agree(p_list(ts, p, false), p_list(ts, p, true), lift_items()),
        p_list(ts, p, false).0 >= p,
        tok(ts, p).kind == TokKind::OpenBracket ==> p_list(ts, p, false).0 > p,
    decreases ts.len() - p, 1int,
{
    lemma_lifts();
    nr_list(ts, p);
    if tok(ts, p).kind == TokKind::OpenBracket {
        if tok(ts, p + 1).kind == TokKind::CloseBracket {
            assert(set_items(Seq::<ValueView>::empty(), true) =~= Seq::<ValueView>::empty());
        } else {
            lemma_items(ts, p + 1);
        }
    }
}

proof fn lemma_item(ts: Seq<TokenView>, p: int)
    requires
        p >= 0,
    ensures
        agree(p_item(ts, p, false), p_item(ts, p, true), lift_value()),
        p_item(ts, p, false).0 >= p,
        is_refusal(p_item(ts, p, false).1) ==> p_item(ts, p, false).0 > p,
    decreases ts.len() - p, 3int,
{
    lemma_lifts();
    nr_item(ts, p);
    if tok(ts, p).kind != TokKind::CloseBracket {
        lemma_value(ts, p);
    }
}

proof fn lemma_items(ts: Seq<TokenView>, p: int)
    requires
        p >= 0,
    ensures
        agree(p_items(ts, p, false), p_items(ts, p, true), lift_items()),
        p_items(ts, p, false).0 >= p,
    decreases ts.len() - p, 5int,
{
    lemma_lifts();
    nr_items(ts, p);
    lemma_item(ts, p);
    let (q, r) = p_item(ts, p, false);
    match r {
        Ok(v) => {
            lemma_set_items_push(Seq::empty(), v);
            assert(Seq::<ValueView>::empty().push(v) =~= seq![v]);
            assert(set_items(Seq::<ValueView>::empty(), true) =~= Seq::<ValueView>::empty());
            assert(Seq::<ValueView>::empty().push(set_value(v, true)) =~= seq![set_value(v, true)]);
            if p < q <= ts.len() {
                lemma_items_rest(ts, q, seq![v]);
            }
        },
        Err(_) => {
            assert(set_items(Seq::<ValueView>::empty(), true) =~= Seq::<ValueView>::empty());
        },
    }
}

proof fn lemma_items_rest(ts: Seq<TokenView>, p: int, acc: Seq<ValueView>)
    requires
        p >= 0,
    ensures
        agree(p_items_rest(ts, p, acc, false), p_items_rest(ts, p, set_items(acc, true), true), lift_items()),
        p_items_rest(ts, p, acc, false).0 >= p,
    decreases ts.len() - p, 4int,
{
    lemma_lifts();
    nr_items_rest(ts, p, set_items(acc, true));
    let q = skip_comma(ts, p);
    lemma_item(ts, q);
    let (q2, r) = p_item(ts, q, false);
    match r {
        Ok(v) => {
            lemma_set_items_push(acc, v);
            if p < q2 <= ts.len() {
                lemma_items_rest(ts, q2, acc.push(v));
            }
        },
        Err(_) => {},
    }
}

proof fn lemma_field(ts: Seq<TokenView>, p: int)
    requires
        p >= 0,
    ensures
        agree(p_field(ts, p, false), p_field(ts, p, true), lift_field()),
        p_field(ts, p, false).0 >= p,
        is_refusal(p_field(ts, p, false).1) ==> p_field(ts, p, false).0 > p,
    decreases ts.len() - p, 1int,
{
    lemma_lifts();
    nr_field(ts, p);
    if tok(ts, p).kind == TokKind::Identifier && tok(ts, p + 1).kind == TokKind::Assign {
        lemma_value(ts, p + 2);
    }
}

proof fn lemma_fields(ts: Seq<TokenView>, p: int)
    requires
        p >= 0,
    ensures
        agree(p_fields(ts, p, false), p_fields(ts, p, true), lift_fields()),
        p_fields(ts, p, false).0 >= p,
    decreases ts.len() - p, 3int,
{
    lemma_lifts();
    nr_fields(ts, p);
    lemma_field(ts, p);
    let (q, r) = p_field(ts, p, false);
    let e = Seq::<(Seq<char>, ValueView)>::empty();
    assert(set_fields(e, true) =~= e);
    match r {
        Ok(f) => {
            lemma_set_fields_push(e, f);
            assert(e.push(f) =~= seq![f]);
            assert(e.push((f.0, set_value(f.1, true))) =~= seq![(f.0, set_value(f.1, true))]);
            if p < q <= ts.len() {
                lemma_fields_rest(ts, q, seq![f]);
            }
        },
        Err(_) => {},
    }
}

proof fn lemma_fields_rest(ts: Seq<TokenView>, p: int, acc: Seq<(Seq<char>, ValueView)>)
    requires
        p >= 0,
    ensures
        agree(p_fields_rest(ts, p, acc, false), p_fields_rest(ts, p, set_fields(acc, true), true), lift_fields()),
        p_fields_rest(ts, p, acc, false).0 >= p,
    decreases ts.len() - p, 2int,
{
    lemma_lifts();
    nr_fields_rest(ts, p, set_fields(acc, true));
    let q = skip_comma(ts, p);
    lemma_field(ts, q);
    let (q2, r) = p_field(ts, q, false);
    match r {
        Ok(f) => {
            lemma_set_fields_push(acc, f);
            if p < q2 <= ts.len() {
                lemma_fields_rest(ts, q2, acc.push(f));
            }
        },
        Err(_) => {},
    }
}

proof fn lemma_object(ts: Seq<TokenView>, p: int)
    requires
        p >= 0,
    ensures
        agree(p_object(ts, p, false), p_object(ts, p, true), lift_object()),
        p_object(ts, p, false).0 >= p,
    decreases ts.len() - p, 4int,
{
    lemma_lifts();
    nr_object(ts, p);
    let p1 = if tok(ts, p).kind == TokKind::OpenCurly {
        p + 1
    } else {
        p
    };
    if tok(ts, p1).kind == TokKind::CloseCurly {
        assert(set_fields(Seq::<(Seq<char>, ValueView)>::empty(), true) =~= Seq::<(Seq<char>, ValueView)>::empty());
        assert(set_object(ObjectView::empty(false), true) == ObjectView::empty(true));
    } else {
        lemma_fields(ts, p1);
        let (q, r) = p_fields(ts, p1, false);
        match r {
            Ok(fields) => {
                lemma_build_agree(fields);
            },
            Err(_) => {},
        }
    }
}

proof fn lemma_top_field(ts: Seq<TokenView>, p: int)
    requires
        p >= 0,
    ensures
        agree(p_top_field(ts, p, false), p_top_field(ts, p, true), lift_field()),
        p_top_field(ts, p, false).0 >= p,
        is_refusal(p_top_field(ts, p, false).1) ==> p_top_field(ts, p, false).0 > p,
{
    lemma_lifts();
    nr_field(ts, p);
    lemma_field(ts, p);
}

proof fn lemma_top_rest(ts: Seq<TokenView>, p: int, acc: Seq<(Seq<char>, ValueView)>)
    requires
        p >= 0,
    ensures
        agree(p_top_rest(ts, p, acc, false), p_top_rest(ts, p, set_fields(acc, true), true), lift_fields()),
    decreases ts.len() - p,
{
    lemma_lifts();
    nr_top_rest(ts, p, set_fields(acc, true));
    lemma_top_field(ts, p);
    let (q, r) = p_top_field(ts, p, false);
    match r {
        Ok(f) => {
            lemma_set_fields_push(acc, f);
            if p < q <= ts.len() {
                lemma_top_rest(ts, q, acc.push(f));
            }
        },
        Err(_) => {},
    }
}

pub(crate) proof fn lemma_document_agree(ts: Seq<TokenView>)
    ensures
        agree(p_document(ts, false), p_document(ts, true), lift_object()),
{
    lemma_lifts();
    nr_document(ts);
    if tok(ts, 0).kind == TokKind::Eof {
        assert(set_fields(Seq::<(Seq<char>, ValueView)>::empty(), true) =~= Seq::<(Seq<char>, ValueView)>::empty());
        assert(set_object(ObjectView::empty(false), true) == ObjectView::empty(true));
    } else {
        lemma_top_field(ts, 0);
        let (q, r) = p_top_field(ts, 0, false);
        match r {
            Ok(f) => {
                let e = Seq::<(Seq<char>, ValueView)>::empty();
                assert(set_fields(e, true) =~= e);
                lemma_set_fields_push(e, f);
                assert(e.push(f) =~= seq![f]);
                assert(e.push((f.0, set_value(f.1, true))) =~= seq![(f.0, set_value(f.1, true))]);
                lemma_top_rest(ts, q, seq![f]);
                let (q2, r2) = p_top_rest(ts, q, seq![f], false);
                match r2 {
                    Ok(fields) => {
                        lemma_build_agree(fields);
                    },
                    Err(_) => {},
                }
            },
            Err(_) => {},
        }
    }
}

// ---------------------------------------------------------------------------
// Where a key repeats: the objects that a read with redefinition allowed
// goes through, and whether the fields read for one of them repeat a key.

pub open spec fn rep_value(ts: Seq<TokenView>, p: int) -> bool
    decreases ts.len() - p, 2int,
{
    if tok(ts, p).kind == TokKind::OpenBracket {
        rep_list(ts, p)
    } else if tok(ts, p).kind == TokKind::OpenCurly {
        rep_object(ts, p + 1)
    } else {
        false
    }
}

pub open spec fn rep_list(ts: Seq<TokenView>, p: int) -> bool
    decreases ts.len() - p, 1int,
{
    tok(ts, p).kind == TokKind::OpenBracket && tok(ts, p + 1).kind != TokKind::CloseBracket && rep_items(
        ts,
        p + 1,
    )
}

pub open spec fn rep_item(ts: Seq<TokenView>, p: int) -> bool
    decreases ts.len() - p, 3int,
{
    tok(ts, p).kind != TokKind::CloseBracket && rep_value(ts, p)
}

pub open spec fn rep_items(ts: Seq<TokenView>, p: int) -> bool
    decreases ts.len() - p, 5int,
{
    rep_item(ts, p) || match p_item(ts, p, true) {
        (q, Ok(_)) => p < q <= ts.len() && rep_items_rest(ts, q),
        _ => false,
    }
}

pub open spec fn rep_items_rest(ts: Seq<TokenView>, p: int) -> bool
    decreases ts.len() - p, 4int,
{
    let q = skip_comma(ts, p);
    rep_item(ts, q) || match p_item(ts, q, true) {
        (q2, Ok(_)) => p < q2 <= ts.len() && rep_items_rest(ts, q2),
        _ => false,
    }
}

pub open spec fn rep_field(ts: Seq<TokenView>, p: int) -> bool
    decreases ts.len() - p, 1int,
{
    tok(ts, p).kind == TokKind::Identifier && tok(ts, p + 1).kind == TokKind::Assign && rep_value(ts, p + 2)
}

pub open spec fn rep_fields(ts: Seq<TokenView>, p: int) -> bool
    decreases ts.len() - p, 3int,
{
    rep_field(ts, p) || match p_field(ts, p, true) {
        (q, Ok(_)) => p < q <= ts.len() && rep_fields_rest(ts, q),
        _ => false,
    }
}

pub open spec fn rep_fields_rest(ts: Seq<TokenView>, p: int) -> bool
    decreases ts.len() - p, 2int,
{
    let q = skip_comma(ts, p);
    rep_field(ts, q) || match p_field(ts, q, true) {
        (q2, Ok(_)) => p < q2 <= ts.len() && rep_fields_rest(ts, q2),
        _ => false,
    }
}

pub open spec fn rep_object(ts: Seq<TokenView>, p: int) -> bool
    decreases ts.len() - p, 4int,
{
    let p1 = if tok(ts, p).kind == TokKind::OpenCurly {
        p + 1
    } else {
        p
    };
    tok(ts, p1).kind != TokKind::CloseCurly && (rep_fields(ts, p1) || match p_fields(ts, p1, true) {
        (q, Ok(fs)) => tok(ts, q).kind == TokKind::CloseCurly && !keys_distinct(fs),
        _ => false,
    })
}

pub open spec fn rep_top_rest(ts: Seq<TokenView>, p: int) -> bool
    decreases ts.len() - p,
{
    rep_field(ts, p) || match p_top_field(ts, p, true) {
        (q, Ok(_)) => p < q <= ts.len() && rep_top_rest(ts, q),
        _ => false,
    }
}

/// Whether some object of the document as read (the root, a nested object,
/// or one inside a list) defines a key twice.
pub open spec fn rep_document(ts: Seq<TokenView>) -> bool {
    tok(ts, 0).kind != TokKind::Eof && (rep_field(ts, 0) || match p_top_field(ts, 0, true) {
        (q, Ok(f)) => rep_top_rest(ts, q) || match p_top_rest(ts, q, seq![f], true) {
            (q2, Ok(fs)) => tok(ts, q2).kind == TokKind::Eof && !keys_distinct(fs),
            _ => false,
        },
        _ => false,
    })
}

proof fn lemma_keys_distinct_set(fields: Seq<(Seq<char>, ValueView)>)
    ensures
        keys_distinct(set_fields(fields, true)) == keys_distinct(fields),
{
    lemma_set_fields_keys(fields, true);
    let sf = set_fields(fields, true);
    if keys_distinct(fields) {
        assert forall|i: int, j: int| 0 <= i < j < sf.len() implies #[trigger] sf[i].0 != #[trigger] sf[j].0 by {
            assert(sf[i].0 == fields[i].0);
            assert(sf[j].0 == fields[j].0);
        }
    }
    if keys_distinct(sf) {
        assert forall|i: int, j: int| 0 <= i < j < fields.len() implies #[trigger] fields[i].0
            != #[trigger] fields[j].0 by {
            assert(sf[i].0 == fields[i].0);
            assert(sf[j].0 == fields[j].0);
        }
    }
}

proof fn rp_value(ts: Seq<TokenView>, p: int)
    requires
        p >= 0,
        p_value(ts, p, true).1 is Ok,
    ensures
        is_refusal(p_value(ts, p, false).1) == rep_value(ts, p),
    decreases ts.len() - p, 2int,
{
    lemma_value(ts, p);
    if tok(ts, p).kind == TokKind::OpenBracket {
        rp_list(ts, p);
    } else if tok(ts, p).kind == TokKind::OpenCurly {
        rp_object(ts, p + 1);
    }
}

proof fn rp_list(ts: Seq<TokenView>, p: int)
    requires
        p >= 0,
        p_list(ts, p, true).1 is Ok,
    ensures
        is_refusal(p_list(ts, p, false).1) == rep_list(ts, p),
    decreases ts.len() - p, 1int,
{
    lemma_list(ts, p);
    if tok(ts, p).kind == TokKind::OpenBracket && tok(ts, p + 1).kind != TokKind::CloseBracket {
        lemma_items(ts, p + 1);
        rp_items(ts, p + 1);
    }
}

proof fn rp_item(ts: Seq<TokenView>, p: int)
    requires
        p >= 0,
        p_item(ts, p, true).1 is Ok,
    ensures
        is_refusal(p_item(ts, p, false).1) == rep_item(ts, p),
    decreases ts.len() - p, 3int,
{
    if tok(ts, p).kind != TokKind::CloseBracket {
        rp_value(ts, p);
    }
}

proof fn rp_items(ts: Seq<TokenView>, p: int)
    requires
        p >= 0,
        p_items(ts, p, true).1 is Ok,
    ensures
        is_refusal(p_items(ts, p, false).1) == rep_items(ts, p),
    decreases ts.len() - p, 5int,
{
    lemma_lifts();
    lemma_item(ts, p);
    nr_item(ts, p);
    let (q, r) = p_item(ts, p, true);
    match r {
        Ok(v2) => {
            rp_item(ts, p);
            if !rep_item(ts, p) {
                let v = p_item(ts, p, false).1->Ok_0;
                lemma_set_items_push(Seq::empty(), v);
                assert(Seq::<ValueView>::empty().push(v) =~= seq![v]);
                assert(set_items(Seq::<ValueView>::empty(), true) =~= Seq::<ValueView>::empty());
                assert(Seq::<ValueView>::empty().push(set_value(v, true)) =~= seq![set_value(v, true)]);
                if p < q <= ts.len() {
                    lemma_items_rest(ts, q, seq![v]);
                    rp_items_rest(ts, q, seq![v]);
                }
            }
        },
        Err(_) => {},
    }
}

proof fn rp_items_rest(ts: Seq<TokenView>, p: int, acc: Seq<ValueView>)
    requires
        p >= 0,
        p_items_rest(ts, p, set_items(acc, true), true).1 is Ok,
    ensures
        is_refusal(p_items_rest(ts, p, acc, false).1) == rep_items_rest(ts, p),
    decreases ts.len() - p, 4int,
{
    lemma_lifts();
    let q = skip_comma(ts, p);
    lemma_item(ts, q);
    nr_item(ts, q);
    let (q2, r) = p_item(ts, q, true);
    match r {
        Ok(v2) => {
            rp_item(ts, q);
            if !rep_item(ts, q) {
                let v = p_item(ts, q, false).1->Ok_0;
                assert(p_item(ts, q, false).0 == q2);
                lemma_set_items_push(acc, v);
                if p < q2 <= ts.len() {
                    lemma_items_rest(ts, q2, acc.push(v));
                    rp_items_rest(ts, q2, acc.push(v));
                    assert(p_items_rest(ts, p, acc, false) == p_items_rest(ts, q2, acc.push(v), false));
                    assert(rep_items_rest(ts, p) == rep_items_rest(ts, q2));
                } else {
                    assert(p_items_rest(ts, p, acc, false) == (q2, Ok::<Seq<ValueView>, ErrorView>(acc.push(v))));
                    assert(!rep_items_rest(ts, p));
                }
            } else {
                assert(rep_items_rest(ts, p));
                assert(is_refusal(p_items_rest(ts, p, acc, false).1));
            }
        },
        Err(_) => {
            assert(q2 == q);
            assert(tok(ts, q).kind == TokKind::CloseBracket);
            assert(!rep_item(ts, q));
            assert(!rep_items_rest(ts, p));
        },
    }
}

proof fn rp_field(ts: Seq<TokenView>, p: int)
    requires
        p >= 0,
        p_field(ts, p, true).1 is Ok,
    ensures
        is_refusal(p_field(ts, p, false).1) == rep_field(ts, p),
    decreases ts.len() - p, 1int,
{
    if tok(ts, p).kind == TokKind::Identifier && tok(ts, p + 1).kind == TokKind::Assign {
        rp_value(ts, p + 2);
    }
}

proof fn rp_fields(ts: Seq<TokenView>, p: int)
    requires
        p >= 0,
        p_fields(ts, p, true).1 is Ok,
    ensures
        is_refusal(p_fields(ts, p, false).1) == rep_fields(ts, p),
    decreases ts.len() - p, 3int,
{
    lemma_lifts();
    lemma_field(ts, p);
    nr_field(ts, p);
    let (q, r) = p_field(ts, p, true);
    match r {
        Ok(f2) => {
            rp_field(ts, p);
            if !rep_field(ts, p) {
                let f = p_field(ts, p, false).1->Ok_0;
                let e = Seq::<(Seq<char>, ValueView)>::empty();
                assert(set_fields(e, true) =~= e);
                lemma_set_fields_push(e, f);
                assert(e.push(f) =~= seq![f]);
                assert(e.push((f.0, set_value(f.1, true))) =~= seq![(f.0, set_value(f.1, true))]);
                if p < q <= ts.len() {
                    lemma_fields_rest(ts, q, seq![f]);
                    rp_fields_rest(ts, q, seq![f]);
                }
            }
        },
        Err(_) => {},
    }
}

proof fn rp_fields_rest(ts: Seq<TokenView>, p: int, acc: Seq<(Seq<char>, ValueView)>)
    requires
        p >= 0,
        p_fields_rest(ts, p, set_fields(acc, true), true).1 is Ok,
    ensures
        is_refusal(p_fields_rest(ts, p, acc, false).1) == rep_fields_rest(ts, p),
    decreases ts.len() - p, 2int,
{
    lemma_lifts();
    let q = skip_comma(ts, p);
    lemma_field(ts, q);
    nr_field(ts, q);
    let (q2, r) = p_field(ts, q, true);
    match r {
        Ok(f2) => {
            rp_field(ts, q);
            if !rep_field(ts, q) {
                let f = p_field(ts, q, false).1->Ok_0;
                assert(p_field(ts, q, false).0 == q2);
                lemma_set_fields_push(acc, f);
                if p < q2 <= ts.len() {
                    lemma_fields_rest(ts, q2, acc.push(f));
                    rp_fields_rest(ts, q2, acc.push(f));
                    assert(p_fields_rest(ts, p, acc, false) == p_fields_rest(ts, q2, acc.push(f), false));
                    assert(rep_fields_rest(ts, p) == rep_fields_rest(ts, q2));
                } else {
                    assert(!rep_fields_rest(ts, p));
                }
            } else {
                assert(rep_fields_rest(ts, p));
                assert(is_refusal(p_fields_rest(ts, p, acc, false).1));
            }
        },
        Err(_) => {
            assert(q2 == q);
            assert(tok(ts, q).kind != TokKind::Identifier);
            assert(!rep_field(ts, q));
            assert(!rep_fields_rest(ts, p));
        },
    }
}

proof fn rp_object(ts: Seq<TokenView>, p: int)
    requires
        p >= 0,
        p_object(ts, p, true).1 is Ok,
    ensures
        is_refusal(p_object(ts, p, false).1) == rep_object(ts, p),
    decreases ts.len() - p, 4int,
{
    lemma_lifts();
    let p1 = if tok(ts, p).kind == TokKind::OpenCurly {
        p + 1
    } else {
        p
    };
    if tok(ts, p1).kind != TokKind::CloseCurly {
        lemma_fields(ts, p1);
        rp_fields(ts, p1);
        if !rep_fields(ts, p1) {
            let fs = p_fields(ts, p1, false).1->Ok_0;
            lemma_keys_distinct_set(fs);
            law_redefinition_refused(fs);
        }
    }
}

proof fn rp_top_rest(ts: Seq<TokenView>, p: int, acc: Seq<(Seq<char>, ValueView)>)
    requires
        p >= 0,
        p_top_rest(ts, p, set_fields(acc, true), true).1 is Ok,
    ensures
        is_refusal(p_top_rest(ts, p, acc, false).1) == rep_top_rest(ts, p),
    decreases ts.len() - p,
{
    lemma_lifts();
    lemma_top_field(ts, p);
    nr_field(ts, p);
    let (q, r) = p_top_field(ts, p, true);
    match r {
        Ok(f2) => {
            rp_field(ts, p);
            if !rep_field(ts, p) {
                let f = p_top_field(ts, p, false).1->Ok_0;
                lemma_set_fields_push(acc, f);
                if p < q <= ts.len() {
                    lemma_top_rest(ts, q, acc.push(f));
                    rp_top_rest(ts, q, acc.push(f));
                }
            }
        },
        Err(_) => {},
    }
}

pub(crate) proof fn rp_document(ts: Seq<TokenView>)
    requires
        p_document(ts, true).1 is Ok,
    ensures
        is_refusal(p_document(ts, false).1) == rep_document(ts),
{
    lemma_lifts();
    if tok(ts, 0).kind != TokKind::Eof {
        lemma_top_field(ts, 0);
        let (q, r) = p_top_field(ts, 0, true);
        if r is Ok {
            rp_field(ts, 0);
            if !rep_field(ts, 0) {
                let f = p_top_field(ts, 0, false).1->Ok_0;
                let e = Seq::<(Seq<char>, ValueView)>::empty();
                assert(set_fields(e, true) =~= e);
                lemma_set_fields_push(e, f);
                assert(e.push(f) =~= seq![f]);
                assert(e.push((f.0, set_value(f.1, true))) =~= seq![(f.0, set_value(f.1, true))]);
                lemma_top_rest(ts, q, seq![f]);
                rp_top_rest(ts, q, seq![f]);
                if !rep_top_rest(ts, q) {
                    let fs = p_top_rest(ts, q, seq![f], false).1->Ok_0;
                    lemma_keys_distinct_set(fs);
                    law_redefinition_refused(fs);
                }
            }
        }
    }
}

} // verus!
