//! Properties of lookups, of building objects and of typed access that hold
//! for all inputs.
use vstd::prelude::*;

use crate::convert::{FromGssValue, GssType};
use crate::parser::{build, build_from, p_document, p_fields, p_object, p_top_field, p_top_rest, tok};
use crate::token::{TokKind, TokenView};
use crate::parser::{p_item, p_items_rest, p_list, p_value, skip_comma, ErrorView};
use crate::token::unescaped;
use crate::setting::{agree, is_refusal, lemma_document_agree, lift_object, rep_document, rp_document, set_object};
use crate::resolve::{lookup_path, resolve, resolve_expr, walk};
use crate::dump::{dotted, field_pieces, fields_pieces, indent, items_pieces, object_pieces, value_pieces, PieceView};
use crate::number::{decimal, digit_text, digit_value, fold_digits, spec_parse_u32, IntError};
use crate::value::{view_values, Expr, FloatLit, FloatView, Object, Value, key_index, lemma_key_index, ExprView, ObjectView, ValueView, DEFAULT_MAX_DEPTH};

verus! {

/// A larger budget (a higher limit, or fewer references already followed)
/// never changes a lookup that succeeded: the limit only cuts lookups off.
pub proof fn law_depth_limit_only_cuts_off(
    root: ObjectView,
    start: ObjectView,
    path: Seq<Seq<char>>,
    depth: int,
    max: int,
    depth2: int,
    max2: int,
)
    requires
        max - depth <= max2 - depth2,
        resolve(root, start, path, depth, max) is Some,
    ensures
        resolve(root, start, path, depth2, max2) == resolve(root, start, path, depth, max),
    decreases max - depth, 2int, 0int,
{
    lemma_walk_budget(root, start, path, 0, depth, max, depth2, max2);
}

proof fn lemma_walk_budget(
    root: ObjectView,
    obj: ObjectView,
    path: Seq<Seq<char>>,
    i: int,
    depth: int,
    max: int,
    depth2: int,
    max2: int,
)
    requires
        max - depth <= max2 - depth2,
        walk(root, obj, path, i, depth, max) is Some,
    ensures
        walk(root, obj, path, i, depth2, max2) == walk(root, obj, path, i, depth, max),
    decreases max - depth, 1int, path.len() - i,
{
    if i == path.len() - 1 {
        match obj.lookup(path[i]) {
            Some(ValueView::Expr(e)) => {
                lemma_resolve_expr_budget(root, obj, e, depth + 1, max, depth2 + 1, max2);
            },
            _ => {},
        }
    } else {
        match obj.lookup(path[i]) {
            Some(ValueView::Object(o)) => {
                lemma_walk_budget(root, o, path, i + 1, depth, max, depth2, max2);
            },
            Some(ValueView::Expr(e)) => {
                lemma_resolve_expr_budget(root, obj, e, depth + 1, max, depth2 + 1, max2);
                match resolve_expr(root, obj, e, depth + 1, max) {
                    Some(ValueView::Object(o)) => {
                        lemma_walk_budget(root, o, path, i + 1, depth, max, depth2, max2);
                    },
                    _ => {},
                }
            },
            _ => {},
        }
    }
}

proof fn lemma_resolve_expr_budget(
    root: ObjectView,
    obj: ObjectView,
    e: ExprView,
    depth: int,
    max: int,
    depth2: int,
    max2: int,
)
    requires
        max - depth <= max2 - depth2,
        resolve_expr(root, obj, e, depth, max) is Some,
    ensures
        resolve_expr(root, obj, e, depth2, max2) == resolve_expr(root, obj, e, depth, max),
    decreases max - depth, 3int, 0int,
{
    match e {
        ExprView::Symbol(s) => law_depth_limit_only_cuts_off(root, root, seq![s], depth, max, depth2, max2),
        ExprView::Access(p) => law_depth_limit_only_cuts_off(root, root, p, depth, max, depth2, max2),
        ExprView::RelAccess(p) => law_depth_limit_only_cuts_off(root, obj, p, depth, max, depth2, max2),
    }
}

/// A lookup never gives a reference: references found on the way are
/// followed.
pub proof fn law_never_a_reference(root: ObjectView, start: ObjectView, path: Seq<Seq<char>>, depth: int, max: int)
    ensures
        resolve(root, start, path, depth, max) matches Some(v) ==> !(v is Expr),
    decreases max - depth, 2int, 0int,
{
    if depth < max && path.len() > 0 {
        lemma_walk_no_reference(root, start, path, 0, depth, max);
    }
}

proof fn lemma_walk_no_reference(
    root: ObjectView,
    obj: ObjectView,
    path: Seq<Seq<char>>,
    i: int,
    depth: int,
    max: int,
)
    ensures
        walk(root, obj, path, i, depth, max) matches Some(v) ==> !(v is Expr),
    decreases max - depth, 1int, path.len() - i,
{
    if depth < max && 0 <= i < path.len() {
        if i == path.len() - 1 {
            match obj.lookup(path[i]) {
                Some(ValueView::Expr(e)) => {
                    lemma_resolve_expr_no_reference(root, obj, e, depth + 1, max);
                },
                _ => {},
            }
        } else {
            match obj.lookup(path[i]) {
                Some(ValueView::Object(o)) => {
                    lemma_walk_no_reference(root, o, path, i + 1, depth, max);
                },
                Some(ValueView::Expr(e)) => {
                    match resolve_expr(root, obj, e, depth + 1, max) {
                        Some(ValueView::Object(o)) => {
                            lemma_walk_no_reference(root, o, path, i + 1, depth, max);
                        },
                        _ => {},
                    }
                },
                _ => {},
            }
        }
    }
}

proof fn lemma_resolve_expr_no_reference(root: ObjectView, obj: ObjectView, e: ExprView, depth: int, max: int)
    ensures
        resolve_expr(root, obj, e, depth, max) matches Some(v) ==> !(v is Expr),
    decreases max - depth, 3int, 0int,
{
    match e {
        ExprView::Symbol(s) => law_never_a_reference(root, root, seq![s], depth, max),
        ExprView::Access(p) => law_never_a_reference(root, root, p, depth, max),
        ExprView::RelAccess(p) => law_never_a_reference(root, obj, p, depth, max),
    }
}

/// A key whose value is a symbol stands for what that symbol's key stands
/// for at the root, one reference deeper, whichever object holds it.
pub proof fn law_symbol_chain(
    root: ObjectView,
    start: ObjectView,
    a: Seq<char>,
    b: Seq<char>,
    depth: int,
    max: int,
)
    requires
        start.lookup(a) == Some(ValueView::Expr(ExprView::Symbol(b))),
        depth < max,
    ensures
        resolve(root, start, seq![a], depth, max) == resolve(root, root, seq![b], depth + 1, max),
{
    assert(seq![a][0] == a);
}

/// A key whose value is a dotted path stands for what that path names from
/// the root, one reference deeper, whichever object holds it.
pub proof fn law_access_chain(
    root: ObjectView,
    start: ObjectView,
    a: Seq<char>,
    p: Seq<Seq<char>>,
    depth: int,
    max: int,
)
    requires
        start.lookup(a) == Some(ValueView::Expr(ExprView::Access(p))),
        depth < max,
    ensures
        resolve(root, start, seq![a], depth, max) == resolve(root, root, p, depth + 1, max),
{
    assert(seq![a][0] == a);
}

/// A chain of symbols `x0 = v, x1 = x0, ..., xk = x(k-1)` at the root, `v`
/// not a reference: key `xi` resolves to `v` exactly when the `i` references
/// fit in what is left of the limit.
pub proof fn law_chain_against_limit(
    root: ObjectView,
    names: Seq<Seq<char>>,
    v: ValueView,
    i: int,
    depth: int,
    max: int,
)
    requires
        0 <= i < names.len(),
        root.lookup(names[0]) == Some(v),
        !(v is Expr),
        forall|j: int|
            1 <= j < names.len() ==> root.lookup(#[trigger] names[j]) == Some(
                ValueView::Expr(ExprView::Symbol(names[j - 1])),
            ),
    ensures
        resolve(root, root, seq![names[i]], depth, max) == if i < max - depth {
            Some(v)
        } else {
            None::<ValueView>
        },
    decreases i,
{
    if depth < max {
        if i == 0 {
            law_direct_lookup(root, root, names[0], v, depth, max);
        } else {
            law_symbol_chain(root, root, names[i], names[i - 1], depth, max);
            law_chain_against_limit(root, names, v, i - 1, depth + 1, max);
        }
    }
}

/// Keys that refer to each other in a ring (`a = b, b = a`, or `a = a`)
/// never resolve, whatever the depth limit.
pub proof fn law_symbol_cycle_unresolved(root: ObjectView, ring: Seq<Seq<char>>, i: int, depth: int, max: int)
    requires
        ring.len() >= 1,
        0 <= i < ring.len(),
        forall|j: int|
            0 <= j < ring.len() ==> root.lookup(#[trigger] ring[j]) == Some(
                ValueView::Expr(ExprView::Symbol(ring[(j + 1) % ring.len() as int])),
            ),
    ensures
        resolve(root, root, seq![ring[i]], depth, max) is None,
    decreases max - depth,
{
    if depth < max {
        let next = (i + 1) % ring.len() as int;
        law_symbol_chain(root, root, ring[i], ring[next], depth, max);
        law_symbol_cycle_unresolved(root, ring, next, depth + 1, max);
    }
}

/// A reference `.y` held by an object stands for that object's field `y`.
pub proof fn law_relative_reference(
    root: ObjectView,
    k: Seq<char>,
    x: Seq<char>,
    y: Seq<char>,
    v: ValueView,
    depth: int,
    max: int,
)
    requires
        root.lookup(k) matches Some(ValueView::Object(o)) && o.lookup(x) == Some(
            ValueView::Expr(ExprView::RelAccess(seq![y])),
        ) && o.lookup(y) == Some(v),
        !(v is Expr),
        depth + 1 < max,
    ensures
        resolve(root, root, seq![k, x], depth, max) == Some(v),
{
    let o = root.lookup(k)->0->Object_0;
    assert(seq![k, x][0] == k);
    assert(seq![k, x][1] == x);
    assert(seq![y][0] == y);
    let e = ExprView::RelAccess(seq![y]);
    assert(walk(root, o, seq![y], 0, depth + 1, max) == Some(v));
    assert(resolve(root, o, seq![y], depth + 1, max) == Some(v));
    assert(resolve_expr(root, o, e, depth + 1, max) == Some(v));
    assert(walk(root, o, seq![k, x], 1, depth, max) == Some(v));
    assert(walk(root, root, seq![k, x], 0, depth, max) == Some(v));
}

/// After a relative hop, a symbol is still read at the root: in object `k`,
/// `x = .y` with `y = z` stands for the root's `z`.
pub proof fn law_symbol_after_relative_hop(
    root: ObjectView,
    k: Seq<char>,
    x: Seq<char>,
    y: Seq<char>,
    z: Seq<char>,
    v: ValueView,
    depth: int,
    max: int,
)
    requires
        root.lookup(k) matches Some(ValueView::Object(o)) && o.lookup(x) == Some(
            ValueView::Expr(ExprView::RelAccess(seq![y])),
        ) && o.lookup(y) == Some(ValueView::Expr(ExprView::Symbol(z))),
        root.lookup(z) == Some(v),
        !(v is Expr),
        depth + 2 < max,
    ensures
        resolve(root, root, seq![k, x], depth, max) == Some(v),
{
    let o = root.lookup(k)->0->Object_0;
    assert(seq![k, x][0] == k);
    assert(seq![k, x][1] == x);
    law_symbol_chain(root, o, y, z, depth + 1, max);
    law_direct_lookup(root, root, z, v, depth + 2, max);
    let e = ExprView::RelAccess(seq![y]);
    assert(resolve_expr(root, o, e, depth + 1, max) == Some(v));
    assert(walk(root, o, seq![k, x], 1, depth, max) == Some(v));
    assert(walk(root, root, seq![k, x], 0, depth, max) == Some(v));
}

/// An empty path names nothing, and nothing is found once the depth limit
/// is reached.
pub proof fn law_empty_path(root: ObjectView, start: ObjectView, path: Seq<Seq<char>>, depth: int, max: int)
    ensures
        resolve(root, start, Seq::empty(), depth, max) is None,
        depth >= max ==> resolve(root, start, path, depth, max) is None,
{
}

/// A key whose value is not a reference stands for that value, as long as
/// the depth limit allows a lookup at all.
pub proof fn law_direct_lookup(
    root: ObjectView,
    start: ObjectView,
    k: Seq<char>,
    v: ValueView,
    depth: int,
    max: int,
)
    requires
        start.lookup(k) == Some(v),
        !(v is Expr),
        depth < max,
    ensures
        resolve(root, start, seq![k], depth, max) == Some(v),
{
    assert(seq![k][0] == k);
}

/// A path through a nested object reaches that object's field.
pub proof fn law_nested_lookup(
    root: ObjectView,
    start: ObjectView,
    k: Seq<char>,
    j: Seq<char>,
    v: ValueView,
    depth: int,
    max: int,
)
    requires
        start.lookup(k) matches Some(ValueView::Object(o)) && o.lookup(j) == Some(v),
        !(v is Expr),
        depth < max,
    ensures
        resolve(root, start, seq![k, j], depth, max) == Some(v),
{
    let o = start.lookup(k)->0->Object_0;
    assert(seq![k, j][0] == k);
    assert(seq![k, j][1] == j);
    assert(walk(root, o, seq![k, j], 1, depth, max) == Some(v));
}

/// The value of the last field with key `k`.
pub open spec fn last_value(fields: Seq<(Seq<char>, ValueView)>, k: Seq<char>) -> Option<ValueView>
    decreases fields.len(),
{
    if fields.len() == 0 {
        None
    } else if fields.last().0 == k {
        Some(fields.last().1)
    } else {
        last_value(fields.drop_last(), k)
    }
}

pub open spec fn keys_distinct(fields: Seq<(Seq<char>, ValueView)>) -> bool {
    forall|i: int, j: int| 0 <= i < j < fields.len() ==> #[trigger] fields[i].0 != #[trigger] fields[j].0
}

/// Whether the key at `j` occurs before `j`.
pub open spec fn repeats_at(fields: Seq<(Seq<char>, ValueView)>, j: int) -> bool {
    exists|i: int| 0 <= i < j && #[trigger] fields[i].0 == fields[j].0
}

/// The first position from `j` on whose key occurred before it, or -1.
pub open spec fn first_repeat_from(fields: Seq<(Seq<char>, ValueView)>, j: int) -> int
    decreases fields.len() - j,
{
    if j < 0 || j >= fields.len() {
        -1
    } else if repeats_at(fields, j) {
        j
    } else {
        first_repeat_from(fields, j + 1)
    }
}

pub open spec fn first_repeat(fields: Seq<(Seq<char>, ValueView)>) -> int {
    first_repeat_from(fields, 0)
}

// Facts about looking keys up.

proof fn lemma_key_index_is(fields: Seq<(Seq<char>, ValueView)>, k: Seq<char>, i: int)
    requires
        0 <= i < fields.len(),
        fields[i].0 == k,
        forall|j: int| 0 <= j < i ==> #[trigger] fields[j].0 != k,
    ensures
        key_index(fields, k) == i,
{
    lemma_key_index(fields, k);
    let r = key_index(fields, k);
    if r >= 0 && r < i {
        assert(fields[r].0 == k);
    }
}

proof fn lemma_key_index_none(fields: Seq<(Seq<char>, ValueView)>, k: Seq<char>)
    requires
        forall|j: int| 0 <= j < fields.len() ==> #[trigger] fields[j].0 != k,
    ensures
        key_index(fields, k) == -1,
{
    lemma_key_index(fields, k);
    let r = key_index(fields, k);
    if r >= 0 {
        assert(fields[r].0 == k);
    }
}

/// In an object without repeated keys, setting a key changes the lookup of
/// that key only, and keeps keys unrepeated.
pub proof fn lemma_insert_lookup(o: ObjectView, k: Seq<char>, v: ValueView, k2: Seq<char>)
    requires
        o.wf(),
    ensures
        o.insert(k, v).wf(),
        o.insert(k, v).lookup(k2) == if k2 == k {
            Some(v)
        } else {
            o.lookup(k2)
        },
        o.insert(k, v).allow_redefinition == o.allow_redefinition,
        o.insert(k, v).max_depth == o.max_depth,
{
    lemma_key_index(o.fields, k);
    lemma_key_index(o.fields, k2);
    let i = key_index(o.fields, k);
    let n = o.insert(k, v);
    if i >= 0 {
        assert(n.fields =~= o.fields.update(i, (k, v)));
        assert forall|a: int, b: int| 0 <= a < b < n.fields.len() implies #[trigger] n.fields[a].0
            != #[trigger] n.fields[b].0 by {
            assert(n.fields[a].0 == o.fields[a].0);
            assert(n.fields[b].0 == o.fields[b].0);
        }
        let j = key_index(o.fields, k2);
        if j >= 0 {
            lemma_key_index_is(n.fields, k2, j);
        } else {
            assert forall|m: int| 0 <= m < n.fields.len() implies #[trigger] n.fields[m].0 != k2 by {
                assert(n.fields[m].0 == o.fields[m].0);
            }
            lemma_key_index_none(n.fields, k2);
        }
    } else {
        assert(n.fields =~= o.fields.push((k, v)));
        assert forall|a: int, b: int| 0 <= a < b < n.fields.len() implies #[trigger] n.fields[a].0
            != #[trigger] n.fields[b].0 by {
            if b == o.fields.len() {
                assert(o.fields[a].0 != k);
            } else {
                assert(o.fields[a].0 != o.fields[b].0);
            }
        }
        if k2 == k {
            lemma_key_index_is(n.fields, k2, o.fields.len() as int);
        } else {
            let j = key_index(o.fields, k2);
            if j >= 0 {
                lemma_key_index_is(n.fields, k2, j);
            } else {
                assert forall|m: int| 0 <= m < n.fields.len() implies #[trigger] n.fields[m].0 != k2 by {
                    if m < o.fields.len() {
                        assert(n.fields[m] == o.fields[m]);
                    }
                }
                lemma_key_index_none(n.fields, k2);
            }
        }
    }
}

proof fn lemma_last_value_prepend(x: (Seq<char>, ValueView), s: Seq<(Seq<char>, ValueView)>, k: Seq<char>)
    ensures
        last_value(seq![x] + s, k) == if last_value(s, k) is Some {
            last_value(s, k)
        } else if x.0 == k {
            Some(x.1)
        } else {
            None
        },
    decreases s.len(),
{
    if s.len() > 0 {
        assert((seq![x] + s).drop_last() =~= seq![x] + s.drop_last());
        assert((seq![x] + s).last() == s.last());
        lemma_last_value_prepend(x, s.drop_last(), k);
    } else {
        assert(seq![x] + s =~= seq![x]);
        assert(seq![x].drop_last() =~= Seq::<(Seq<char>, ValueView)>::empty());
        assert(last_value(Seq::<(Seq<char>, ValueView)>::empty(), k) is None);
        assert(seq![x].last() == x);
    }
}

proof fn lemma_build_permissive_from(acc: ObjectView, fields: Seq<(Seq<char>, ValueView)>, i: int)
    requires
        acc.wf(),
        acc.allow_redefinition,
        0 <= i <= fields.len(),
    ensures
        build_from(acc, fields, i) matches Ok(o) && o.wf() && o.allow_redefinition && o.max_depth
            == acc.max_depth && forall|k: Seq<char>|
            #[trigger] o.lookup(k) == if last_value(fields.subrange(i, fields.len() as int), k) is Some {
                last_value(fields.subrange(i, fields.len() as int), k)
            } else {
                acc.lookup(k)
            },
    decreases fields.len() - i,
{
    let n = fields.len() as int;
    if i == n {
        assert forall|k: Seq<char>| #[trigger] acc.lookup(k) == if last_value(fields.subrange(i, n), k) is Some {
            last_value(fields.subrange(i, n), k)
        } else {
            acc.lookup(k)
        } by {
            assert(fields.subrange(i, n).len() == 0);
        }
    } else {
        let f = fields[i];
        let acc2 = acc.insert(f.0, f.1);
        assert forall|k: Seq<char>| true implies #[trigger] acc2.lookup(k) == (if k == f.0 {
            Some(f.1)
        } else {
            acc.lookup(k)
        }) by {
            lemma_insert_lookup(acc, f.0, f.1, k);
        }
        lemma_insert_lookup(acc, f.0, f.1, f.0);
        lemma_build_permissive_from(acc2, fields, i + 1);
        let o = build_from(acc2, fields, i + 1)->Ok_0;
        assert(build_from(acc, fields, i) == build_from(acc2, fields, i + 1));
        assert(fields.subrange(i, n) =~= seq![f] + fields.subrange(i + 1, n));
        assert forall|k: Seq<char>| #[trigger] o.lookup(k) == if last_value(fields.subrange(i, n), k) is Some {
            last_value(fields.subrange(i, n), k)
        } else {
            acc.lookup(k)
        } by {
            lemma_last_value_prepend(f, fields.subrange(i + 1, n), k);
            assert(acc2.lookup(k) == (if k == f.0 {
                Some(f.1)
            } else {
                acc.lookup(k)
            }));
        }
    }
}

/// With redefinition allowed, defining fields in order never fails, each key
/// gets the value of its last definition, no key is repeated, and the object
/// keeps the default depth limit.
pub proof fn law_redefinition_last_wins(fields: Seq<(Seq<char>, ValueView)>)
    ensures
        build(fields, true) matches Ok(o) && o.wf() && o.allow_redefinition && o.max_depth
            == DEFAULT_MAX_DEPTH && forall|k: Seq<char>| #[trigger] o.lookup(k) == last_value(fields, k),
{
    let e = ObjectView::empty(true);
    lemma_build_permissive_from(e, fields, 0);
    assert(fields.subrange(0, fields.len() as int) =~= fields);
    let o = build(fields, true)->Ok_0;
    assert forall|k: Seq<char>| #[trigger] o.lookup(k) == last_value(fields, k) by {
        lemma_key_index(e.fields, k);
    }
}

proof fn lemma_build_strict_from(fields: Seq<(Seq<char>, ValueView)>, i: int)
    requires
        0 <= i <= fields.len(),
        forall|j: int| 0 <= j < i ==> !repeats_at(fields, j),
    ensures
        build_from(
            ObjectView { fields: fields.take(i), max_depth: DEFAULT_MAX_DEPTH, allow_redefinition: false },
            fields,
            i,
        ) == if first_repeat_from(fields, i) < 0 {
            Ok::<ObjectView, Seq<char>>(
                ObjectView { fields, max_depth: DEFAULT_MAX_DEPTH, allow_redefinition: false },
            )
        } else {
            Err(fields[first_repeat_from(fields, i)].0)
        },
    decreases fields.len() - i,
{
    let n = fields.len() as int;
    let acc = ObjectView { fields: fields.take(i), max_depth: DEFAULT_MAX_DEPTH, allow_redefinition: false };
    if i == n {
        assert(fields.take(i) =~= fields);
    } else {
        let f = fields[i];
        if repeats_at(fields, i) {
            let w = choose|w: int| 0 <= w < i && #[trigger] fields[w].0 == fields[i].0;
            lemma_key_index(acc.fields, f.0);
            if key_index(acc.fields, f.0) < 0 {
                assert(acc.fields[w].0 == f.0);
            }
        } else {
            assert forall|m: int| 0 <= m < acc.fields.len() implies #[trigger] acc.fields[m].0 != f.0 by {
                assert(acc.fields[m] == fields[m]);
            }
            lemma_key_index_none(acc.fields, f.0);
            assert(acc.insert(f.0, f.1).fields =~= fields.take(i + 1));
            assert forall|j: int| 0 <= j < i + 1 implies !repeats_at(fields, j) by {}
            lemma_build_strict_from(fields, i + 1);
        }
    }
}

/// With redefinition refused, defining fields in order fails exactly when a
/// key occurs twice, naming the first key that does; otherwise the object
/// holds the fields in order.
pub proof fn law_redefinition_refused(fields: Seq<(Seq<char>, ValueView)>)
    ensures
        build(fields, false) == if first_repeat(fields) < 0 {
            Ok::<ObjectView, Seq<char>>(
                ObjectView { fields, max_depth: DEFAULT_MAX_DEPTH, allow_redefinition: false },
            )
        } else {
            Err(fields[first_repeat(fields)].0)
        },
        (first_repeat(fields) < 0) == keys_distinct(fields),
{
    assert(fields.take(0) =~= Seq::<(Seq<char>, ValueView)>::empty());
    lemma_build_strict_from(fields, 0);
    lemma_first_repeat_distinct(fields, 0);
}

proof fn lemma_first_repeat_distinct(fields: Seq<(Seq<char>, ValueView)>, j: int)
    requires
        0 <= j <= fields.len(),
        forall|m: int| 0 <= m < j ==> !repeats_at(fields, m),
    ensures
        (first_repeat_from(fields, j) < 0) == keys_distinct(fields),
        first_repeat_from(fields, j) >= 0 ==> j <= first_repeat_from(fields, j) < fields.len(),
    decreases fields.len() - j,
{
    if j == fields.len() {
        assert forall|a: int, b: int| 0 <= a < b < fields.len() implies #[trigger] fields[a].0
            != #[trigger] fields[b].0 by {
            assert(!repeats_at(fields, b));
        }
    } else if repeats_at(fields, j) {
        let w = choose|w: int| 0 <= w < j && #[trigger] fields[w].0 == fields[j].0;
        assert(fields[w].0 == fields[j].0);
    } else {
        lemma_first_repeat_distinct(fields, j + 1);
    }
}

proof fn lemma_build_distinct_from(fields: Seq<(Seq<char>, ValueView)>, i: int, a: bool)
    requires
        0 <= i <= fields.len(),
        keys_distinct(fields),
    ensures
        build_from(
            ObjectView { fields: fields.take(i), max_depth: DEFAULT_MAX_DEPTH, allow_redefinition: a },
            fields,
            i,
        ) == Ok::<ObjectView, Seq<char>>(ObjectView { fields, max_depth: DEFAULT_MAX_DEPTH, allow_redefinition: a }),
    decreases fields.len() - i,
{
    let n = fields.len() as int;
    let acc = ObjectView { fields: fields.take(i), max_depth: DEFAULT_MAX_DEPTH, allow_redefinition: a };
    if i == n {
        assert(fields.take(i) =~= fields);
    } else {
        let f = fields[i];
        assert forall|m: int| 0 <= m < acc.fields.len() implies #[trigger] acc.fields[m].0 != f.0 by {
            assert(acc.fields[m] == fields[m]);
        }
        lemma_key_index_none(acc.fields, f.0);
        assert(acc.insert(f.0, f.1).fields =~= fields.take(i + 1));
        lemma_build_distinct_from(fields, i + 1, a);
    }
}

/// Where no key repeats, allowing redefinition or not makes no difference:
/// either way the object holds the fields in order, with that setting.
pub proof fn law_redefinition_setting_moot_without_repeats(fields: Seq<(Seq<char>, ValueView)>, a: bool)
    requires
        keys_distinct(fields),
    ensures
        build(fields, a) == Ok::<ObjectView, Seq<char>>(
            ObjectView { fields, max_depth: DEFAULT_MAX_DEPTH, allow_redefinition: a },
        ),
{
    assert(fields.take(0) =~= Seq::<(Seq<char>, ValueView)>::empty());
    lemma_build_distinct_from(fields, 0, a);
}

/// The top-level fields of a document whose every field reads and is
/// followed by the end of input (none for an empty document); `None` where a
/// field fails or something else follows them.
pub open spec fn document_fields(ts: Seq<TokenView>, a: bool) -> Option<Seq<(Seq<char>, ValueView)>> {
    if tok(ts, 0).kind == TokKind::Eof {
        Some(Seq::empty())
    } else {
        match p_top_field(ts, 0, a) {
            (q, Err(_)) => None,
            (q, Ok(f)) => match p_top_rest(ts, q, seq![f], a) {
                (q2, Err(_)) => None,
                (q2, Ok(fields)) => if tok(ts, q2).kind != TokKind::Eof {
                    None
                } else {
                    Some(fields)
                },
            },
        }
    }
}

/// A document whose top-level fields all read, up to the end of input: with
/// redefinition allowed, it
/// reads, each key taking its last definition; with it refused, it fails
/// exactly when a key repeats, naming the first key that does, and otherwise
/// holds the fields in order.
pub proof fn law_document_redefinition(ts: Seq<TokenView>, a: bool)
    requires
        document_fields(ts, a) is Some,
    ensures
        a ==> (p_document(ts, a).1 matches Ok(o) && o.wf() && o.allow_redefinition && forall|k: Seq<char>|
            #[trigger] o.lookup(k) == last_value(document_fields(ts, a)->0, k)),
        !a ==> p_document(ts, a).1 == {
            let fields = document_fields(ts, a)->0;
            if first_repeat(fields) < 0 {
                Ok::<ObjectView, ErrorView>(
                    ObjectView { fields, max_depth: DEFAULT_MAX_DEPTH, allow_redefinition: false },
                )
            } else {
                Err(ErrorView::Redefinition { key: fields[first_repeat(fields)].0 })
            }
        },
{
    let fields = document_fields(ts, a)->0;
    if tok(ts, 0).kind == TokKind::Eof {
        let e = ObjectView::empty(a);
        assert forall|k: Seq<char>| #[trigger] e.lookup(k) == last_value(fields, k) by {}
        assert(e =~= ObjectView { fields, max_depth: DEFAULT_MAX_DEPTH, allow_redefinition: a });
    } else if a {
        law_redefinition_last_wins(fields);
    } else {
        law_redefinition_refused(fields);
    }
}

/// Setting the depth limit changes only the limit lookups run under: the
/// object's lookups are then those of its fields under the new limit.
pub proof fn law_set_max_depth(o: ObjectView, m: usize, path: Seq<Seq<char>>)
    ensures
        lookup_path(ObjectView { max_depth: m, ..o }, path) == resolve(o, o, path, 0, m as int),
{
    let o2 = ObjectView { max_depth: m, ..o };
    lemma_resolve_same_fields(o2, o2, o, o, path, 0, m as int);
}

/// Lookups read objects only through their fields.
proof fn lemma_resolve_same_fields(
    r1: ObjectView,
    s1: ObjectView,
    r2: ObjectView,
    s2: ObjectView,
    path: Seq<Seq<char>>,
    depth: int,
    max: int,
)
    requires
        r1.fields == r2.fields,
        s1.fields == s2.fields,
    ensures
        resolve(r1, s1, path, depth, max) == resolve(r2, s2, path, depth, max),
    decreases max - depth, 2int, 0int,
{
    if depth < max && path.len() > 0 {
        lemma_walk_same_fields(r1, s1, r2, s2, path, 0, depth, max);
    }
}

proof fn lemma_walk_same_fields(
    r1: ObjectView,
    o1: ObjectView,
    r2: ObjectView,
    o2: ObjectView,
    path: Seq<Seq<char>>,
    i: int,
    depth: int,
    max: int,
)
    requires
        r1.fields == r2.fields,
        o1.fields == o2.fields,
    ensures
        walk(r1, o1, path, i, depth, max) == walk(r2, o2, path, i, depth, max),
    decreases max - depth, 1int, path.len() - i,
{
    if depth < max && 0 <= i < path.len() {
        assert(o1.lookup(path[i]) == o2.lookup(path[i]));
        if i == path.len() - 1 {
            match o1.lookup(path[i]) {
                Some(ValueView::Expr(e)) => {
                    lemma_resolve_expr_same_fields(r1, o1, r2, o2, e, depth + 1, max);
                },
                _ => {},
            }
        } else {
            match o1.lookup(path[i]) {
                Some(ValueView::Object(o)) => {
                    lemma_walk_same_fields(r1, o, r2, o, path, i + 1, depth, max);
                },
                Some(ValueView::Expr(e)) => {
                    lemma_resolve_expr_same_fields(r1, o1, r2, o2, e, depth + 1, max);
                    match resolve_expr(r1, o1, e, depth + 1, max) {
                        Some(ValueView::Object(o)) => {
                            lemma_walk_same_fields(r1, o, r2, o, path, i + 1, depth, max);
                        },
                        _ => {},
                    }
                },
                _ => {},
            }
        }
    }
}

proof fn lemma_resolve_expr_same_fields(
    r1: ObjectView,
    o1: ObjectView,
    r2: ObjectView,
    o2: ObjectView,
    e: ExprView,
    depth: int,
    max: int,
)
    requires
        r1.fields == r2.fields,
        o1.fields == o2.fields,
    ensures
        resolve_expr(r1, o1, e, depth, max) == resolve_expr(r2, o2, e, depth, max),
    decreases max - depth, 3int, 0int,
{
    match e {
        ExprView::Symbol(s) => lemma_resolve_same_fields(r1, r1, r2, r2, seq![s], depth, max),
        ExprView::Access(p) => lemma_resolve_same_fields(r1, r1, r2, r2, p, depth, max),
        ExprView::RelAccess(p) => lemma_resolve_same_fields(r1, o1, r2, o2, p, depth, max),
    }
}

/// An object that reading produced (a document or an object literal) has
/// no repeated key, the default depth limit, and the redefinition setting it
/// was read with.
pub proof fn law_read_object_wf(fields: Seq<(Seq<char>, ValueView)>, a: bool)
    requires
        build(fields, a) is Ok,
    ensures
        build(fields, a) matches Ok(o) && o.wf() && o.allow_redefinition == a && o.max_depth
            == DEFAULT_MAX_DEPTH,
{
    if a {
        law_redefinition_last_wins(fields);
    } else {
        law_redefinition_refused(fields);
    }
}

/// A document that reads has no repeated top-level key, the default depth
/// limit, and the redefinition setting it was read with.
pub proof fn law_document_wf(ts: Seq<TokenView>, a: bool)
    requires
        p_document(ts, a).1 is Ok,
    ensures
        p_document(ts, a).1 matches Ok(o) && o.wf() && o.allow_redefinition == a && o.max_depth
            == DEFAULT_MAX_DEPTH,
{
    if tok(ts, 0).kind != TokKind::Eof {
        let (q, f) = p_top_field(ts, 0, a);
        let (q2, fields) = p_top_rest(ts, q, seq![f->Ok_0], a);
        law_read_object_wf(fields->Ok_0, a);
    }
}

/// An object literal that reads has no repeated key, the default depth
/// limit, and the redefinition setting it was read with.
pub proof fn law_object_literal_wf(ts: Seq<TokenView>, p: int, a: bool)
    requires
        p_object(ts, p, a).1 is Ok,
    ensures
        p_object(ts, p, a).1 matches Ok(o) && o.wf() && o.allow_redefinition == a && o.max_depth
            == DEFAULT_MAX_DEPTH,
{
    let p1 = if tok(ts, p).kind == TokKind::OpenCurly {
        p + 1
    } else {
        p
    };
    if tok(ts, p1).kind != TokKind::CloseCurly {
        let (q, fields) = p_fields(ts, p1, a);
        law_read_object_wf(fields->Ok_0, a);
    }
}

/// For the types a value can hold as they are, the exact getter and the
/// converting getter agree: a value converts to `x` exactly when it holds `x`.
pub proof fn law_exact_and_converted_agree(v: ValueView, n: u32, b: bool, s: String)
    ensures
        <u32 as GssType>::holds(v) == <u32 as FromGssValue>::convertible(v),
        <u32 as FromGssValue>::converts(v, n) == (n.wrapped() == v),
        <bool as GssType>::holds(v) == <bool as FromGssValue>::convertible(v),
        <bool as FromGssValue>::converts(v, b) == (b.wrapped() == v),
        <String as GssType>::holds(v) == <String as FromGssValue>::convertible(v),
        <String as FromGssValue>::converts(v, s) == (s.wrapped() == v),
{
}

/// Reading with redefinition refused is reading with it allowed, except
/// for refusals: the allowing read never refuses; where the refusing read
/// gives an object, the allowing read gives the same object (with the
/// setting changed in it and in every object within it) and stops at the
/// same token; where the refusing read fails otherwise than by refusing a
/// redefined key, the allowing read fails in the same way at the same token.
pub proof fn law_refusing_read_is_allowing_read(ts: Seq<TokenView>)
    ensures
        agree(p_document(ts, false), p_document(ts, true), lift_object()),
{
    lemma_document_agree(ts);
}

/// A document that reads with redefinition allowed is refused with
/// redefinition refused exactly when some object in it (the root, a nested
/// object, or one inside a list) defines a key twice; otherwise it reads the
/// same, with the setting changed.
pub proof fn law_refusal_exactly_on_repeats(ts: Seq<TokenView>)
    requires
        p_document(ts, true).1 is Ok,
    ensures
        is_refusal(p_document(ts, false).1) == rep_document(ts),
        !rep_document(ts) ==> (p_document(ts, false).1 matches Ok(o) && p_document(ts, true) == (
            p_document(ts, false).0,
            Ok::<ObjectView, ErrorView>(set_object(o, true)),
        )),
{
    lemma_document_agree(ts);
    rp_document(ts);
}

/// An integer value converts to an integer type exactly when it lies in
/// that type's range, and then to the same number; a value of another kind
/// converts to no integer type.
pub proof fn law_integer_conversions(v: ValueView, n: u32)
    ensures
        <u8 as FromGssValue>::convertible(ValueView::Number(n)) == (n <= u8::MAX),
        <u16 as FromGssValue>::convertible(ValueView::Number(n)) == (n <= u16::MAX),
        <u32 as FromGssValue>::convertible(ValueView::Number(n)),
        <u64 as FromGssValue>::convertible(ValueView::Number(n)),
        <u128 as FromGssValue>::convertible(ValueView::Number(n)),
        <usize as FromGssValue>::convertible(ValueView::Number(n)),
        <i8 as FromGssValue>::convertible(ValueView::Number(n)) == (n <= i8::MAX),
        <i16 as FromGssValue>::convertible(ValueView::Number(n)) == (n <= i16::MAX),
        <i32 as FromGssValue>::convertible(ValueView::Number(n)) == (n <= i32::MAX),
        <i64 as FromGssValue>::convertible(ValueView::Number(n)),
        <i128 as FromGssValue>::convertible(ValueView::Number(n)),
        <isize as FromGssValue>::convertible(ValueView::Number(n)) == (n <= isize::MAX),
        forall|x: u8| #[trigger] <u8 as FromGssValue>::converts(ValueView::Number(n), x) == (x == n),
        forall|x: u16| #[trigger] <u16 as FromGssValue>::converts(ValueView::Number(n), x) == (x == n),
        forall|x: u32| #[trigger] <u32 as FromGssValue>::converts(ValueView::Number(n), x) == (x == n),
        forall|x: u64| #[trigger] <u64 as FromGssValue>::converts(ValueView::Number(n), x) == (x == n),
        forall|x: u128| #[trigger] <u128 as FromGssValue>::converts(ValueView::Number(n), x) == (x == n),
        forall|x: usize| #[trigger] <usize as FromGssValue>::converts(ValueView::Number(n), x) == (x == n),
        forall|x: i8| #[trigger] <i8 as FromGssValue>::converts(ValueView::Number(n), x) == (x == n),
        forall|x: i16| #[trigger] <i16 as FromGssValue>::converts(ValueView::Number(n), x) == (x == n),
        forall|x: i32| #[trigger] <i32 as FromGssValue>::converts(ValueView::Number(n), x) == (x == n),
        forall|x: i64| #[trigger] <i64 as FromGssValue>::converts(ValueView::Number(n), x) == (x == n),
        forall|x: i128| #[trigger] <i128 as FromGssValue>::converts(ValueView::Number(n), x) == (x == n),
        forall|x: isize| #[trigger] <isize as FromGssValue>::converts(ValueView::Number(n), x) == (x == n),
        !(v is Number) ==> !<u8 as FromGssValue>::convertible(v) && !<u16 as FromGssValue>::convertible(v)
            && !<u32 as FromGssValue>::convertible(v) && !<u64 as FromGssValue>::convertible(v)
            && !<u128 as FromGssValue>::convertible(v) && !<usize as FromGssValue>::convertible(v)
            && !<i8 as FromGssValue>::convertible(v) && !<i16 as FromGssValue>::convertible(v)
            && !<i32 as FromGssValue>::convertible(v) && !<i64 as FromGssValue>::convertible(v)
            && !<i128 as FromGssValue>::convertible(v) && !<isize as FromGssValue>::convertible(v),
{
}

/// Scalars render as their usual text: a boolean as `true` or `false`, an
/// integer as its decimal digits, a string between double quotes; the two
/// booleans render differently.
pub proof fn law_scalar_rendering(level: nat, n: u32, s: Seq<char>)
    ensures
        value_pieces(ValueView::Bool(true), level) == seq![PieceView::Text("true"@)],
        value_pieces(ValueView::Bool(false), level) == seq![PieceView::Text("false"@)],
        value_pieces(ValueView::Bool(true), level) != value_pieces(ValueView::Bool(false), level),
        value_pieces(ValueView::Number(n), level) == seq![PieceView::Text(decimal(n as nat))],
        value_pieces(ValueView::String(s), level) == seq![
            PieceView::Text(seq!['"']),
            PieceView::Text(s),
            PieceView::Text(seq!['"']),
        ],
{
    reveal_strlit("true");
    reveal_strlit("false");
    reveal_strlit("\"");
    assert("\""@ =~= seq!['"']);
    let t = value_pieces(ValueView::Bool(true), level);
    let f = value_pieces(ValueView::Bool(false), level);
    assert(t[0] != f[0]) by {
        assert(t[0] == PieceView::Text("true"@));
        assert(f[0] == PieceView::Text("false"@));
        assert("true"@.len() != "false"@.len());
    }
    assert(value_pieces(ValueView::String(s), level) =~= seq![
        PieceView::Text(seq!['"']),
        PieceView::Text(s),
        PieceView::Text(seq!['"']),
    ]);
}

proof fn lemma_walk_shift(
    root: ObjectView,
    obj: ObjectView,
    k: Seq<char>,
    rest: Seq<Seq<char>>,
    i: int,
    depth: int,
    max: int,
)
    requires
        0 <= i,
    ensures
        walk(root, obj, seq![k] + rest, i + 1, depth, max) == walk(root, obj, rest, i, depth, max),
    decreases rest.len() - i,
{
    let path = seq![k] + rest;
    if i < rest.len() {
        assert(path[i + 1] == rest[i]);
        if i < rest.len() - 1 {
            match obj.lookup(rest[i]) {
                Some(ValueView::Object(o)) => {
                    lemma_walk_shift(root, o, k, rest, i + 1, depth, max);
                },
                Some(ValueView::Expr(e)) => {
                    match resolve_expr(root, obj, e, depth + 1, max) {
                        Some(ValueView::Object(o)) => {
                            lemma_walk_shift(root, o, k, rest, i + 1, depth, max);
                        },
                        _ => {},
                    }
                },
                _ => {},
            }
        }
    }
}

/// A path goes on through what its first key names: a nested object, or
/// an object that a reference stands for (a symbol or a dotted path from the
/// root, or a dotted path from the object that holds it).  The rest of the
/// path is then looked up in that object.
pub proof fn law_path_through_first_key(
    root: ObjectView,
    start: ObjectView,
    k: Seq<char>,
    rest: Seq<Seq<char>>,
    o: ObjectView,
    depth: int,
    max: int,
)
    requires
        rest.len() > 0,
        depth < max,
        start.lookup(k) == Some(ValueView::Object(o)) || match start.lookup(k) {
            Some(ValueView::Expr(ExprView::Symbol(s))) => resolve(root, root, seq![s], depth + 1, max) == Some(
                ValueView::Object(o),
            ),
            Some(ValueView::Expr(ExprView::Access(p))) => resolve(root, root, p, depth + 1, max) == Some(
                ValueView::Object(o),
            ),
            Some(ValueView::Expr(ExprView::RelAccess(p))) => resolve(root, start, p, depth + 1, max) == Some(
                ValueView::Object(o),
            ),
            _ => false,
        },
    ensures
        resolve(root, start, seq![k] + rest, depth, max) == resolve(root, o, rest, depth, max),
{
    let path = seq![k] + rest;
    assert(path[0] == k);
    lemma_walk_shift(root, o, k, rest, 0, depth, max);
}

/// A list item reads exactly as a value does, wherever the list has not
/// ended.
pub proof fn law_item_is_value(ts: Seq<TokenView>, p: int, a: bool)
    requires
        tok(ts, p).kind != TokKind::CloseBracket,
    ensures
        p_item(ts, p, a) == p_value(ts, p, a),
{
}

/// A string literal reads as its unescaped text, one token on.
pub proof fn law_string_value(ts: Seq<TokenView>, p: int, a: bool)
    requires
        tok(ts, p).kind == TokKind::StringLiteral,
    ensures
        p_value(ts, p, a) == (p + 1, Ok::<ValueView, ErrorView>(ValueView::String(unescaped(tok(ts, p).text)))),
{
}

/// `[`, one value, `]` reads as the list of that value.
pub proof fn law_list_of_one_value(ts: Seq<TokenView>, p: int, q: int, v: ValueView, a: bool)
    requires
        tok(ts, p).kind == TokKind::OpenBracket,
        tok(ts, p + 1).kind != TokKind::CloseBracket,
        p_value(ts, p + 1, a) == (q, Ok::<ValueView, ErrorView>(v)),
        tok(ts, q).kind == TokKind::CloseBracket,
    ensures
        p_list(ts, p, a) == (q + 1, Ok::<Seq<ValueView>, ErrorView>(seq![v])),
{
    assert(p_item(ts, p + 1, a) == p_value(ts, p + 1, a));
    assert(skip_comma(ts, q) == q);
    assert(p_item(ts, q, a) == (q, Err::<ValueView, ErrorView>(ErrorView::EndOfList)));
    if p + 1 < q <= ts.len() {
        assert(p_items_rest(ts, q, seq![v], a) == (q, Ok::<Seq<ValueView>, ErrorView>(seq![v])));
    }
}

/// The digits of a radix: `0`-`9` are worth 0 to 9, and the letters `a`-`z`
/// and `A`-`Z` alike are worth 10 to 35; a character is a digit of `radix`
/// exactly when it is worth less than `radix`, and no other character is a
/// digit.
pub proof fn law_digit_values(radix: u32, k: int, c: char)
    requires
        2 <= radix <= 36,
        0 <= k < 36,
    ensures
        k < 10 ==> digit_value((('0' as int) + k) as char, radix) == if k < radix {
            Some(k as u32)
        } else {
            None
        },
        k >= 10 ==> digit_value((('a' as int) + k - 10) as char, radix) == if k < radix {
            Some(k as u32)
        } else {
            None
        },
        k >= 10 ==> digit_value((('A' as int) + k - 10) as char, radix) == if k < radix {
            Some(k as u32)
        } else {
            None
        },
        !('0' <= c <= '9' || 'a' <= c <= 'z' || 'A' <= c <= 'Z') ==> digit_value(c, radix) is None,
{
}

proof fn lemma_fold_push(d: Seq<char>, c: char, radix: u32, acc: int)
    requires
        0 <= acc <= u32::MAX,
    ensures
        fold_digits(d.push(c), radix, acc) == match fold_digits(d, radix, acc) {
            Ok(v) => match digit_value(c, radix) {
                None => Err(IntError::InvalidDigit),
                Some(x) => if v * radix + x > u32::MAX {
                    Err(IntError::PosOverflow)
                } else {
                    Ok((v * radix + x) as u32)
                },
            },
            Err(e) => Err(e),
        },
    decreases d.len(),
{
    if d.len() == 0 {
        assert(d.push(c) =~= seq![c]);
        assert(seq![c].drop_first() =~= Seq::<char>::empty());
        assert(fold_digits(d, radix, acc) == Ok::<u32, IntError>(acc as u32));
        assert((acc as u32) as int == acc);
        match digit_value(c, radix) {
            Some(x) => {
                if acc * radix + x <= u32::MAX {
                    assert(fold_digits(Seq::<char>::empty(), radix, acc * radix + x) == Ok::<u32, IntError>(
                        (acc * radix + x) as u32,
                    ));
                }
            },
            None => {},
        }
    } else {
        assert(d.push(c)[0] == d[0]);
        assert(d.push(c).drop_first() =~= d.drop_first().push(c));
        match digit_value(d[0], radix) {
            Some(x) => {
                if acc * radix + x <= u32::MAX {
                    lemma_fold_push(d.drop_first(), c, radix, acc * radix + x);
                }
            },
            None => {},
        }
    }
}

/// Reading a numeral with one more digit at its end multiplies its value by
/// the radix and adds that digit's worth; it fails where that digit is none
/// of the radix, or where the value no longer fits a `u32`.
pub proof fn law_numeral_append_digit(d: Seq<char>, c: char, radix: u32)
    requires
        2 <= radix <= 36,
        d.len() > 0,
        d[0] != '+' && d[0] != '-',
    ensures
        spec_parse_u32(d.push(c), radix) == match spec_parse_u32(d, radix) {
            Ok(v) => match digit_value(c, radix) {
                None => Err(IntError::InvalidDigit),
                Some(x) => if v * radix + x > u32::MAX {
                    Err(IntError::PosOverflow)
                } else {
                    Ok((v * radix + x) as u32)
                },
            },
            Err(e) => Err(e),
        },
{
    assert(d.push(c)[0] == d[0]);
    lemma_fold_push(d, c, radix, 0);
}

/// The decimal digits of a number read back as that number.
pub proof fn law_decimal_reads_back(n: u32)
    ensures
        spec_parse_u32(decimal(n as nat), 10) == Ok::<u32, IntError>(n),
    decreases n,
{
    reveal_strlit("0");
    reveal_strlit("1");
    reveal_strlit("2");
    reveal_strlit("3");
    reveal_strlit("4");
    reveal_strlit("5");
    reveal_strlit("6");
    reveal_strlit("7");
    reveal_strlit("8");
    reveal_strlit("9");
    let d = (n % 10) as int;
    assert(digit_text(d).len() == 1);
    assert(digit_value(digit_text(d)[0], 10) == Some(d as u32));
    lemma_decimal_leads_with_digit(n as nat);
    if n < 10 {
        let s = decimal(n as nat);
        assert(s == digit_text(n as int));
        assert(d == n);
        assert(s.drop_first() =~= Seq::<char>::empty());
        assert(spec_parse_u32(s, 10) == fold_digits(s, 10, 0));
        assert(fold_digits(s.drop_first(), 10, d) == Ok::<u32, IntError>(n));
        assert(fold_digits(s, 10, 0) == fold_digits(s.drop_first(), 10, 0 * 10 + d));
    } else {
        let m = (n / 10) as u32;
        law_decimal_reads_back(m);
        let head = decimal(m as nat);
        lemma_decimal_leads_with_digit(m as nat);
        assert(decimal(n as nat) == head + digit_text(d));
        assert(head + digit_text(d) =~= head.push(digit_text(d)[0]));
        law_numeral_append_digit(head, digit_text(d)[0], 10);
        assert(m * 10 + d == n);
    }
}

proof fn lemma_decimal_leads_with_digit(n: nat)
    ensures
        decimal(n).len() > 0,
        '0' <= decimal(n)[0] <= '9',
    decreases n,
{
    reveal_strlit("0");
    reveal_strlit("1");
    reveal_strlit("2");
    reveal_strlit("3");
    reveal_strlit("4");
    reveal_strlit("5");
    reveal_strlit("6");
    reveal_strlit("7");
    reveal_strlit("8");
    reveal_strlit("9");
    if n >= 10 {
        lemma_decimal_leads_with_digit(n / 10);
        assert(decimal(n) == decimal(n / 10) + digit_text((n % 10) as int));
        assert(decimal(n)[0] == decimal(n / 10)[0]);
    }
}

/// In an object without repeated keys, each field's key finds that field's
/// value, and a key of no field finds nothing.
pub proof fn law_lookup_finds_field(o: ObjectView, i: int, k: Seq<char>)
    requires
        o.wf(),
        0 <= i < o.fields.len(),
    ensures
        o.lookup(o.fields[i].0) == Some(o.fields[i].1),
        (forall|j: int| 0 <= j < o.fields.len() ==> #[trigger] o.fields[j].0 != k) ==> o.lookup(k) is None,
{
    lemma_key_index(o.fields, o.fields[i].0);
    lemma_key_index(o.fields, k);
    let r = key_index(o.fields, o.fields[i].0);
    if r != i {
        assert(o.fields[r].0 == o.fields[i].0);
    }
    if key_index(o.fields, k) >= 0 {
        assert(o.fields[key_index(o.fields, k)].0 == k);
    }
}

/// How scalar literals read: `true` and `false` as booleans; an integer
/// literal as its value in its radix, or, followed by `%`, as a percentage
/// of that value; an integer literal without a `u32` value fails with the
/// reason; any other name as a symbol when no dot follows it.
pub proof fn law_scalar_literals(ts: Seq<TokenView>, p: int, a: bool, r: u32, x: u32, e: IntError)
    ensures
        tok(ts, p).kind == TokKind::Identifier && tok(ts, p).text == "true"@ ==> p_value(ts, p, a) == (
            p + 1,
            Ok::<ValueView, ErrorView>(ValueView::Bool(true)),
        ),
        tok(ts, p).kind == TokKind::Identifier && tok(ts, p).text == "false"@ ==> p_value(ts, p, a) == (
            p + 1,
            Ok::<ValueView, ErrorView>(ValueView::Bool(false)),
        ),
        tok(ts, p).kind == TokKind::Identifier && tok(ts, p).text != "true"@ && tok(ts, p).text != "false"@
            && tok(ts, p + 1).kind != TokKind::Dot ==> p_value(ts, p, a) == (
            p + 1,
            Ok::<ValueView, ErrorView>(ValueView::Expr(ExprView::Symbol(tok(ts, p).text))),
        ),
        tok(ts, p).kind == TokKind::Number(r) && spec_parse_u32(tok(ts, p).text, r) == Ok::<u32, IntError>(x)
            ==> p_value(ts, p, a) == if tok(ts, p + 1).kind == TokKind::Mod {
            (p + 2, Ok::<ValueView, ErrorView>(ValueView::Float(FloatView::IntPercent(x))))
        } else {
            (p + 1, Ok::<ValueView, ErrorView>(ValueView::Number(x)))
        },
        tok(ts, p).kind == TokKind::Number(r) && spec_parse_u32(tok(ts, p).text, r) == Err::<u32, IntError>(e)
            ==> p_value(ts, p, a) == (p + 1, Err::<ValueView, ErrorView>(ErrorView::Integer(e))),
{
    reveal_strlit("true");
    reveal_strlit("false");
    assert("true"@ =~= seq!['t', 'r', 'u', 'e']);
    assert("false"@ =~= seq!['f', 'a', 'l', 's', 'e']);
}

/// The types a value holds as they are: `u32` in integers, `bool` in
/// booleans, `String` in strings, `FloatLit` in non-integral numbers,
/// `Object` in objects, `Expr` in references, `Vec<Value>` in lists; each
/// is held as itself.
pub proof fn law_exact_types(v: ValueView, n: u32, b: bool, s: String, f: FloatLit, o: Object, e: Expr, l: Vec<Value>)
    ensures
        <u32 as GssType>::holds(v) == v is Number && n.wrapped() == ValueView::Number(n),
        <bool as GssType>::holds(v) == v is Bool && b.wrapped() == ValueView::Bool(b),
        <String as GssType>::holds(v) == v is String && s.wrapped() == ValueView::String(s@),
        <FloatLit as GssType>::holds(v) == v is Float && f.wrapped() == ValueView::Float(f@),
        <Object as GssType>::holds(v) == v is Object && o.wrapped() == ValueView::Object(o@),
        <Expr as GssType>::holds(v) == v is Expr && e.wrapped() == ValueView::Expr(e@),
        <Vec<Value> as GssType>::holds(v) == v is Vec && l.wrapped() == ValueView::Vec(view_values(l@)),
{
}

/// `n` indentation steps are `n` pieces of four spaces.
pub proof fn law_indent(n: nat)
    ensures
        indent(n).len() == n,
        forall|i: int| 0 <= i < n ==> #[trigger] indent(n)[i] == PieceView::Text("    "@),
    decreases n,
{
    if n > 0 {
        law_indent((n - 1) as nat);
        assert forall|i: int| 0 <= i < n implies #[trigger] indent(n)[i] == PieceView::Text("    "@) by {
            if i < n - 1 {
                assert(indent(n)[i] == indent((n - 1) as nat)[i]);
            }
        }
    }
}

/// An object of one field renders as `{`, a line of the field one step
/// deeper (`key => value`), and `}` at the level.
pub proof fn law_one_field_rendering(o: ObjectView, level: nat)
    requires
        o.fields.len() == 1,
    ensures
        object_pieces(o, level) == seq![PieceView::Text("{\n"@)] + indent(level + 1) + seq![
            PieceView::Text(o.fields[0].0),
            PieceView::Text(" => "@),
        ] + value_pieces(o.fields[0].1, level) + seq![PieceView::Text("\n"@)] + indent(level) + seq![
            PieceView::Text("}\n"@),
        ],
{
    let fs = o.fields;
    assert(fs.drop_last() =~= Seq::<(Seq<char>, ValueView)>::empty());
    assert(fs.last() == fs[0]);
    assert(fields_pieces(fs.drop_last(), level) =~= Seq::<PieceView>::empty());
    assert(fields_pieces(fs, level) =~= field_pieces(fs[0], level));
    assert(object_pieces(o, level) =~= seq![PieceView::Text("{\n"@)] + indent(level + 1) + seq![
        PieceView::Text(o.fields[0].0),
        PieceView::Text(" => "@),
    ] + value_pieces(o.fields[0].1, level) + seq![PieceView::Text("\n"@)] + indent(level) + seq![
        PieceView::Text("}\n"@),
    ]);
}

/// A list of two values renders as `[`, the first, `, `, the second, `]`;
/// a dotted path renders with dots between its names, and a relative one
/// with a dot before them.
pub proof fn law_list_and_path_rendering(a: ValueView, b: ValueView, level: nat, x: Seq<char>, y: Seq<char>)
    ensures
        value_pieces(ValueView::Vec(seq![a, b]), level) == seq![PieceView::Text("["@)] + value_pieces(a, level)
            + seq![PieceView::Text(", "@)] + value_pieces(b, level) + seq![PieceView::Text("]"@)],
        value_pieces(ValueView::Expr(ExprView::Access(seq![x, y])), level) == seq![
            PieceView::Text(x),
            PieceView::Text("."@),
            PieceView::Text(y),
        ],
        value_pieces(ValueView::Expr(ExprView::RelAccess(seq![x, y])), level) == seq![
            PieceView::Text("."@),
            PieceView::Text(x),
            PieceView::Text("."@),
            PieceView::Text(y),
        ],
{
    let items = seq![a, b];
    assert(items.drop_last() =~= seq![a]);
    assert(seq![a].drop_last() =~= Seq::<ValueView>::empty());
    assert(items_pieces(seq![a], level) == value_pieces(a, level));
    assert(value_pieces(ValueView::Vec(items), level) =~= seq![PieceView::Text("["@)] + value_pieces(a, level)
        + seq![PieceView::Text(", "@)] + value_pieces(b, level) + seq![PieceView::Text("]"@)]);
    let p = seq![x, y];
    assert(p.drop_last() =~= seq![x]);
    assert(p.last() == y);
    assert(seq![x][0] == x);
    assert(dotted(seq![x]) == seq![PieceView::Text(x)]);
    assert(dotted(p) =~= seq![PieceView::Text(x), PieceView::Text("."@), PieceView::Text(y)]);
    assert(value_pieces(ValueView::Expr(ExprView::RelAccess(p)), level) =~= seq![
        PieceView::Text("."@),
        PieceView::Text(x),
        PieceView::Text("."@),
        PieceView::Text(y),
    ]);
}

} // verus!
