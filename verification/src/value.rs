//! The values a GSS document holds, and objects: ordered maps from keys to
//! values.
use vstd::prelude::*;

verus! {

/// A non-integral number as it was written: a real literal, a real literal
/// followed by `%`, or an integer literal followed by `%`.  The literal's
/// digits are kept; turning them into a binary float is left to the caller
/// (a percentage stands for the literal's value divided by one hundred).
#[derive(Debug, PartialEq)]
pub enum FloatLit {
    Real(String),
    RealPercent(String),
    IntPercent(u32),
}

pub enum FloatView {
    Real(Seq<char>),
    RealPercent(Seq<char>),
    IntPercent(u32),
}

/// A reference to another value: a key at the root, a dotted path from the
/// root, or a dotted path from the object that holds the reference.
#[derive(Debug, PartialEq)]
pub enum Expr {
    Symbol(String),
    Access(Vec<String>),
    RelAccess(Vec<String>),
}

pub enum ExprView {
    Symbol(Seq<char>),
    Access(Seq<Seq<char>>),
    RelAccess(Seq<Seq<char>>),
}

#[derive(Debug, PartialEq)]
pub enum Value {
    Number(u32),
    Float(FloatLit),
    Bool(bool),
    String(String),
    Object(Object),
    Expr(Expr),
    Vec(Vec<Value>),
}

pub enum ValueView {
    Number(u32),
    Float(FloatView),
    Bool(bool),
    String(Seq<char>),
    Object(ObjectView),
    Expr(ExprView),
    Vec(Seq<ValueView>),
}

#[derive(Debug, PartialEq)]
pub(crate) struct Field {
    pub(crate) key: String,
    pub(crate) value: Value,
}

/// An object: its fields in the order they were first defined, the depth
/// limit for resolving references, and whether a key may be defined twice.
#[derive(Debug, PartialEq)]
pub struct Object {
    pub(crate) fields: Vec<Field>,
    pub(crate) max_depth: usize,
    pub(crate) allow_redefinition: bool,
}

pub struct ObjectView {
    pub fields: Seq<(Seq<char>, ValueView)>,
    pub max_depth: usize,
    pub allow_redefinition: bool,
}

/// The depth limit that a new object starts with.
pub const DEFAULT_MAX_DEPTH: usize = 20;

pub open spec fn strings_view(v: Seq<String>) -> Seq<Seq<char>> {
    v.map_values(|s: String| s@)
}

impl View for FloatLit {
    type V = FloatView;

    open spec fn view(&self) -> FloatView {
        match self {
            FloatLit::Real(s) => FloatView::Real(s@),
            FloatLit::RealPercent(s) => FloatView::RealPercent(s@),
            FloatLit::IntPercent(n) => FloatView::IntPercent(*n),
        }
    }
}

impl View for Expr {
    type V = ExprView;

    open spec fn view(&self) -> ExprView {
        match self {
            Expr::Symbol(s) => ExprView::Symbol(s@),
            Expr::Access(p) => ExprView::Access(strings_view(p@)),
            Expr::RelAccess(p) => ExprView::RelAccess(strings_view(p@)),
        }
    }
}

pub open spec fn view_values(s: Seq<Value>) -> Seq<ValueView>
    decreases s,
{
    if s.len() == 0 {
        Seq::empty()
    } else {
        view_values(s.drop_last()).push(value_view(s.last()))
    }
}

pub(crate) open spec fn view_fields(s: Seq<Field>) -> Seq<(Seq<char>, ValueView)>
    decreases s,
{
    if s.len() == 0 {
        Seq::empty()
    } else {
        view_fields(s.drop_last()).push((s.last().key@, value_view(s.last().value)))
    }
}

pub closed spec fn object_view(o: Object) -> ObjectView
    decreases o,
{
    ObjectView {
        fields: view_fields(o.fields@),
        max_depth: o.max_depth,
        allow_redefinition: o.allow_redefinition,
    }
}

pub open spec fn value_view(v: Value) -> ValueView
    decreases v,
{
    match v {
        Value::Number(n) => ValueView::Number(n),
        Value::Float(f) => ValueView::Float(f@),
        Value::Bool(b) => ValueView::Bool(b),
        Value::String(s) => ValueView::String(s@),
        Value::Object(o) => ValueView::Object(object_view(o)),
        Value::Expr(e) => ValueView::Expr(e@),
        Value::Vec(items) => ValueView::Vec(view_values(items@)),
    }
}

impl View for Value {
    type V = ValueView;

    open spec fn view(&self) -> ValueView {
        value_view(*self)
    }
}

impl View for Object {
    type V = ObjectView;

    open spec fn view(&self) -> ObjectView {
        object_view(*self)
    }
}

pub proof fn lemma_view_values(s: Seq<Value>)
    ensures
        view_values(s).len() == s.len(),
        forall|i: int| 0 <= i < s.len() ==> #[trigger] view_values(s)[i] == value_view(s[i]),
    decreases s.len(),
{
    if s.len() > 0 {
        lemma_view_values(s.drop_last());
    }
}

/// An object's fields, seen one by one.
pub(crate) proof fn lemma_object_fields(o: Object)
    ensures
        o@.fields.len() == o.fields@.len(),
        forall|i: int|
            0 <= i < o.fields@.len() ==> #[trigger] o@.fields[i] == (o.fields@[i].key@, o.fields@[i].value@),
{
    lemma_view_fields(o.fields@);
}

pub(crate) proof fn lemma_view_fields(s: Seq<Field>)
    ensures
        view_fields(s).len() == s.len(),
        forall|i: int|
            0 <= i < s.len() ==> #[trigger] view_fields(s)[i] == (s[i].key@, value_view(s[i].value)),
    decreases s.len(),
{
    if s.len() > 0 {
        lemma_view_fields(s.drop_last());
    }
}

/// The position of the first field with key `k`, or -1.
pub open spec fn key_index(fields: Seq<(Seq<char>, ValueView)>, k: Seq<char>) -> int
    decreases fields.len(),
{
    if fields.len() == 0 {
        -1
    } else if fields[0].0 == k {
        0
    } else {
        let r = key_index(fields.drop_first(), k);
        if r < 0 {
            -1
        } else {
            r + 1
        }
    }
}

pub proof fn lemma_key_index(fields: Seq<(Seq<char>, ValueView)>, k: Seq<char>)
    ensures
        -1 <= key_index(fields, k) < fields.len(),
        key_index(fields, k) >= 0 ==> fields[key_index(fields, k)].0 == k,
        forall|j: int| 0 <= j < fields.len() && (key_index(fields, k) < 0 || j < key_index(fields, k))
            ==> #[trigger] fields[j].0 != k,
    decreases fields.len(),
{
    if fields.len() > 0 && fields[0].0 != k {
        lemma_key_index(fields.drop_first(), k);
        assert forall|j: int| 0 <= j < fields.len() && (key_index(fields, k) < 0 || j < key_index(fields, k))
            implies #[trigger] fields[j].0 != k by {
            if j > 0 {
                assert(fields[j] == fields.drop_first()[j - 1]);
            }
        }
    }
}

impl ObjectView {
    /// The value of the first field with key `k`.
    pub open spec fn lookup(self, k: Seq<char>) -> Option<ValueView> {
        let i = key_index(self.fields, k);
        if i >= 0 {
            Some(self.fields[i].1)
        } else {
            None
        }
    }

    /// The object with field `k` set to `v`: in place if `k` is a key already,
    /// else appended.
    pub open spec fn insert(self, k: Seq<char>, v: ValueView) -> ObjectView {
        let i = key_index(self.fields, k);
        ObjectView {
            fields: if i >= 0 {
                self.fields.update(i, (k, v))
            } else {
                self.fields.push((k, v))
            },
            ..self
        }
    }

    pub open spec fn keys(self) -> Seq<Seq<char>> {
        self.fields.map_values(|f: (Seq<char>, ValueView)| f.0)
    }

    /// No key occurs twice.
    pub open spec fn wf(self) -> bool {
        forall|i: int, j: int|
            0 <= i < j < self.fields.len() ==> #[trigger] self.fields[i].0 != #[trigger] self.fields[j].0
    }

    /// An empty object with the default depth limit.
    pub open spec fn empty(allow_redefinition: bool) -> ObjectView {
        ObjectView {
            fields: Seq::empty(),
            max_depth: DEFAULT_MAX_DEPTH,
            allow_redefinition,
        }
    }
}

impl Object {
    /// An empty object: depth limit 20, redefinition of keys refused.
    pub fn new() -> (o: Self)
        ensures
            o@ == ObjectView::empty(false),
    {
        let o = Object { fields: Vec::new(), max_depth: DEFAULT_MAX_DEPTH, allow_redefinition: false };
        proof {
            assert(view_fields(o.fields@) =~= Seq::empty());
        }
        o
    }

    pub fn with_allow_redefinition(self, allow: bool) -> (o: Self)
        ensures
            o@ == (ObjectView { allow_redefinition: allow, ..self@ }),
    {
        let mut o = self;
        o.allow_redefinition = allow;
        o
    }

    pub fn set_allow_redefinition(&mut self, allow: bool)
        ensures
            final(self)@ == (ObjectView { allow_redefinition: allow, ..old(self)@ }),
    {
        self.allow_redefinition = allow;
    }

    pub fn allow_redefinition(&self) -> (b: bool)
        ensures
            b == self@.allow_redefinition,
    {
        self.allow_redefinition
    }

    /// Sets the depth limit for resolving references (20 by default).
    pub fn set_max_depth(&mut self, max_depth: usize)
        ensures
            final(self)@ == (ObjectView { max_depth, ..old(self)@ }),
    {
        self.max_depth = max_depth;
    }

    pub fn max_depth(&self) -> (d: usize)
        ensures
            d == self@.max_depth,
    {
        self.max_depth
    }

    /// The number of fields.
    pub fn len(&self) -> (n: usize)
        ensures
            n == self@.fields.len(),
    {
        proof {
            lemma_view_fields(self.fields@);
        }
        self.fields.len()
    }

    /// The key and value of the field at position `i`.
    pub fn field_at(&self, i: usize) -> (r: (&String, &Value))
        requires
            i < self@.fields.len(),
        ensures
            (r.0@, r.1@) == self@.fields[i as int],
    {
        proof {
            lemma_view_fields(self.fields@);
        }
        (&self.fields[i].key, &self.fields[i].value)
    }

    /// The keys of the object's fields, in order.
    pub fn get_fields(&self) -> (keys: Vec<&String>)
        ensures
            keys@.len() == self@.fields.len(),
            forall|i: int| 0 <= i < keys@.len() ==> #[trigger] keys@[i]@ == self@.fields[i].0,
    {
        proof {
            lemma_view_fields(self.fields@);
        }
        let mut keys: Vec<&String> = Vec::new();
        let n = self.fields.len();
        for i in 0..n
            invariant
                n == self.fields@.len(),
                keys@.len() == i,
                forall|j: int| 0 <= j < i ==> #[trigger] keys@[j]@ == self@.fields[j].0,
                view_fields(self.fields@).len() == self.fields@.len(),
                forall|j: int|
                    0 <= j < self.fields@.len() ==> #[trigger] view_fields(self.fields@)[j] == (
                    self.fields@[j].key@, value_view(self.fields@[j].value)),
        {
            keys.push(&self.fields[i].key);
        }
        keys
    }

    /// The position of the first field with key `key`.
    fn find(&self, key: &String) -> (r: Option<usize>)
        ensures
            match r {
                Some(i) => i < self.fields@.len() && i == key_index(self@.fields, key@),
                None => key_index(self@.fields, key@) < 0,
            },
    {
        proof {
            lemma_view_fields(self.fields@);
            lemma_key_index(self@.fields, key@);
        }
        let n = self.fields.len();
        for i in 0..n
            invariant
                n == self.fields@.len(),
                self@.fields.len() == n,
                forall|j: int| 0 <= j < i ==> #[trigger] self@.fields[j].0 != key@,
                forall|j: int|
                    0 <= j < n ==> #[trigger] self@.fields[j] == (self.fields@[j].key@, value_view(
                        self.fields@[j].value,
                    )),
                -1 <= key_index(self@.fields, key@) < n,
                key_index(self@.fields, key@) >= 0 ==> self@.fields[key_index(self@.fields, key@)].0
                    == key@,
                forall|j: int|
                    0 <= j < n && (key_index(self@.fields, key@) < 0 || j < key_index(
                        self@.fields,
                        key@,
                    )) ==> #[trigger] self@.fields[j].0 != key@,
        {
            if self.fields[i].key == *key {
                proof {
                    let ki = key_index(self@.fields, key@);
                    assert(self@.fields[i as int].0 == key@);
                    if ki >= 0 && ki < i {
                        assert(self@.fields[ki].0 == key@);
                    }
                }
                return Some(i);
            }
        }
        None
    }

    /// The value of the first field with key `key`.
    pub fn lookup(&self, key: &String) -> (r: Option<&Value>)
        ensures
            match r {
                Some(v) => self@.lookup(key@) == Some(v@),
                None => self@.lookup(key@) is None,
            },
    {
        proof {
            lemma_view_fields(self.fields@);
        }
        match self.find(key) {
            Some(i) => Some(&self.fields[i].value),
            None => None,
        }
    }

    /// Sets field `key` to `value`; returns whether the key was defined before.
    pub fn insert(&mut self, key: String, value: Value) -> (was_defined: bool)
        ensures
            final(self)@ == old(self)@.insert(key@, value@),
            was_defined == (old(self)@.lookup(key@) is Some),
            old(self)@.wf() ==> final(self)@.wf(),
    {
        proof {
            lemma_view_fields(self.fields@);
            if self@.wf() {
                crate::laws::lemma_insert_lookup(self@, key@, value@, key@);
            }
        }
        let ghost k = key@;
        let ghost v = value@;
        match self.find(&key) {
            Some(i) => {
                self.fields.set(i, Field { key, value });
                proof {
                    lemma_view_fields(self.fields@);
                    assert(self@.fields =~= old(self)@.fields.update(i as int, (k, v)));
                }
                true
            },
            None => {
                self.fields.push(Field { key, value });
                proof {
                    lemma_view_fields(self.fields@);
                    assert(self@.fields =~= old(self)@.fields.push((k, v)));
                }
                false
            },
        }
    }
}

fn clone_strings(v: &Vec<String>) -> (c: Vec<String>)
    ensures
        c@ == v@,
{
    let mut c: Vec<String> = Vec::new();
    let n = v.len();
    for i in 0..n
        invariant
            n == v@.len(),
            c@ == v@.take(i as int),
    {
        c.push(v[i].clone());
        proof {
            assert(c@ =~= v@.take(i + 1));
        }
    }
    proof {
        assert(v@.take(n as int) =~= v@);
    }
    c
}

fn clone_value(v: &Value) -> (c: Value)
    ensures
        c@ == v@,
    decreases v,
{
    match v {
        Value::Number(n) => Value::Number(*n),
        Value::Float(f) => Value::Float(f.clone()),
        Value::Bool(b) => Value::Bool(*b),
        Value::String(s) => Value::String(s.clone()),
        Value::Object(o) => Value::Object(clone_object(o)),
        Value::Expr(e) => Value::Expr(e.clone()),
        Value::Vec(items) => {
            let mut c: Vec<Value> = Vec::new();
            let n = items.len();
            proof {
                lemma_view_values(items@);
                lemma_view_values(c@);
            }
            for i in 0..n
                invariant
                    n == items@.len(),
                    *v == Value::Vec(*items),
                    c@.len() == i,
                    forall|j: int| 0 <= j < i ==> #[trigger] c@[j]@ == items@[j]@,
            {
                proof {
                    assert(decreases_to!(*v => (*v)->Vec_0));
                    assert(decreases_to!(*items => items@));
                    assert(decreases_to!(items@ => items@[i as int]));
                }
                c.push(clone_value(&items[i]));
            }
            proof {
                lemma_view_values(items@);
                lemma_view_values(c@);
                assert forall|j: int| 0 <= j < n implies #[trigger] view_values(c@)[j] == view_values(
                    items@,
                )[j] by {
                    assert(c@[j]@ == items@[j]@);
                }
                assert(view_values(c@) =~= view_values(items@));
            }
            Value::Vec(c)
        },
    }
}

fn clone_object(o: &Object) -> (c: Object)
    ensures
        c@ == o@,
    decreases o,
{
    let mut fields: Vec<Field> = Vec::new();
    let n = o.fields.len();
    for i in 0..n
        invariant
            n == o.fields@.len(),
            fields@.len() == i,
            forall|j: int| 0 <= j < i ==> #[trigger] fields@[j].key@ == o.fields@[j].key@,
            forall|j: int| 0 <= j < i ==> #[trigger] fields@[j].value@ == o.fields@[j].value@,
    {
        let value = clone_value(&o.fields[i].value);
        let key = o.fields[i].key.clone();
        fields.push(Field { key, value });
    }
    let c = Object { fields, max_depth: o.max_depth, allow_redefinition: o.allow_redefinition };
    proof {
        lemma_view_fields(c.fields@);
        lemma_view_fields(o.fields@);
        assert forall|j: int| 0 <= j < n implies #[trigger] view_fields(c.fields@)[j] == view_fields(
            o.fields@,
        )[j] by {
            assert(c.fields@[j].key@ == o.fields@[j].key@);
            assert(c.fields@[j].value@ == o.fields@[j].value@);
        }
        assert(view_fields(c.fields@) =~= view_fields(o.fields@));
    }
    c
}

impl Clone for FloatLit {
    fn clone(&self) -> (c: Self)
        ensures
            c@ == self@,
    {
        match self {
            FloatLit::Real(s) => FloatLit::Real(s.clone()),
            FloatLit::RealPercent(s) => FloatLit::RealPercent(s.clone()),
            FloatLit::IntPercent(n) => FloatLit::IntPercent(*n),
        }
    }
}

impl Clone for Expr {
    fn clone(&self) -> (c: Self)
        ensures
            c@ == self@,
    {
        match self {
            Expr::Symbol(s) => Expr::Symbol(s.clone()),
            Expr::Access(p) => Expr::Access(clone_strings(p)),
            Expr::RelAccess(p) => Expr::RelAccess(clone_strings(p)),
        }
    }
}

impl Clone for Value {
    fn clone(&self) -> (c: Self)
        ensures
            c@ == self@,
    {
        clone_value(self)
    }
}

impl Clone for Object {
    fn clone(&self) -> (c: Self)
        ensures
            c@ == self@,
    {
        clone_object(self)
    }
}

} // verus!
