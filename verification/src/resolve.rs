//! Looking values up by path, following references between values.
use vstd::prelude::*;

use crate::convert::{FromGssValue, GssType};
use crate::value::{strings_view, Expr, ExprView, Object, ObjectView, Value, ValueView};

verus! {

/// The value at `path` below `start`, references followed.  Each reference
/// followed adds one to `depth`; at `max` the lookup gives up.  A symbol and
/// an absolute path are looked up from `root`, a relative path from the
/// object that holds the reference.
pub open spec fn resolve(root: ObjectView, start: ObjectView, path: Seq<Seq<char>>, depth: int, max: int) -> Option<
    ValueView,
>
    decreases max - depth, 2int, 0int,
{
    if depth >= max || path.len() == 0 {
        None
    } else {
        walk(root, start, path, 0, depth, max)
    }
}

/// Goes on from `obj`, which is what `path[..i]` led to.
pub open spec fn walk(
    root: ObjectView,
    obj: ObjectView,
    path: Seq<Seq<char>>,
    i: int,
    depth: int,
    max: int,
) -> Option<ValueView>
    decreases max - depth, 1int, path.len() - i,
{
    if depth >= max || i < 0 || i >= path.len() {
        None
    } else if i == path.len() - 1 {
        match obj.lookup(path[i]) {
            Some(ValueView::Expr(e)) => resolve_expr(root, obj, e, depth + 1, max),
            other => other,
        }
    } else {
        match obj.lookup(path[i]) {
            Some(ValueView::Object(o)) => walk(root, o, path, i + 1, depth, max),
            Some(ValueView::Expr(e)) => match resolve_expr(root, obj, e, depth + 1, max) {
                Some(ValueView::Object(o)) => walk(root, o, path, i + 1, depth, max),
                _ => None,
            },
            _ => None,
        }
    }
}

/// The value that reference `e`, held by `obj`, stands for.
pub open spec fn resolve_expr(root: ObjectView, obj: ObjectView, e: ExprView, depth: int, max: int) -> Option<
    ValueView,
>
    decreases max - depth, 3int, 0int,
{
    match e {
        ExprView::Symbol(s) => resolve(root, root, seq![s], depth, max),
        ExprView::Access(p) => resolve(root, root, p, depth, max),
        ExprView::RelAccess(p) => resolve(root, obj, p, depth, max),
    }
}

pub open spec fn opt_view(r: Option<&Value>) -> Option<ValueView> {
    match r {
        Some(v) => Some(v@),
        None => None,
    }
}

pub open spec fn path_view(path: Seq<&str>) -> Seq<Seq<char>> {
    path.map_values(|s: &str| s@)
}

/// What `get_value` gives for `path` on `o`.
pub open spec fn lookup_path(o: ObjectView, path: Seq<Seq<char>>) -> Option<ValueView> {
    resolve(o, o, path, 0, o.max_depth as int)
}

impl Object {
    /// The value at `path` below `start`, with `self` as the root.
    fn get_value_impl<'a>(&'a self, start: &'a Object, path: &Vec<String>, depth: usize, max_depth: usize) -> (r:
        Option<&'a Value>)
        ensures
            opt_view(r) == resolve(self@, start@, strings_view(path@), depth as int, max_depth as int),
        decreases max_depth - depth, 2int, 0int,
    {
        let ghost p = strings_view(path@);
        if depth >= max_depth {
            return None;
        }
        let n = path.len();
        if n == 0 {
            return None;
        }
        let mut obj: &'a Object = start;
        let mut i: usize = 0;
        while i < n - 1
            invariant
                n == path@.len(),
                p.len() == n,
                p == strings_view(path@),
                depth < max_depth,
                0 <= i <= n - 1,
                walk(self@, obj@, p, i as int, depth as int, max_depth as int) == resolve(
                    self@,
                    start@,
                    p,
                    depth as int,
                    max_depth as int,
                ),
            decreases n - 1 - i,
        {
            assert(p[i as int] == path@[i as int]@);
            match obj.lookup(&path[i]) {
                None => {
                    return None;
                },
                Some(v) => {
                    match v {
                        Value::Object(o) => {
                            obj = o;
                        },
                        Value::Expr(e) => {
                            let r = self.resolve_expr(obj, e, depth + 1, max_depth);
                            match r {
                                Some(Value::Object(o)) => {
                                    obj = o;
                                },
                                _ => {
                                    return None;
                                },
                            }
                        },
                        _ => {
                            return None;
                        },
                    }
                },
            }
            i += 1;
        }
        assert(p[n - 1] == path@[n - 1]@);
        match obj.lookup(&path[n - 1]) {
            None => None,
            Some(v) => match v {
                Value::Expr(e) => self.resolve_expr(obj, e, depth + 1, max_depth),
                _ => Some(v),
            },
        }
    }

    fn resolve_expr<'a>(&'a self, obj: &'a Object, e: &'a Expr, depth: usize, max_depth: usize) -> (r:
        Option<&'a Value>)
        requires
            depth <= max_depth,
        ensures
            opt_view(r) == resolve_expr(self@, obj@, e@, depth as int, max_depth as int),
        decreases max_depth - depth, 3int, 0int,
    {
        match e {
            Expr::Symbol(s) => {
                let p = vec![s.clone()];
                assert(strings_view(p@) =~= seq![s@]);
                self.get_value_impl(self, &p, depth, max_depth)
            },
            Expr::Access(p) => self.get_value_impl(self, p, depth, max_depth),
            Expr::RelAccess(p) => self.get_value_impl(obj, p, depth, max_depth),
        }
    }
}

/// The path as owned strings.
fn path_strings(path: &[&str]) -> (v: Vec<String>)
    ensures
        strings_view(v@) == path_view(path@),
{
    let mut v: Vec<String> = Vec::new();
    let n = path.len();
    for i in 0..n
        invariant
            n == path@.len(),
            v@.len() == i,
            forall|j: int| 0 <= j < i ==> #[trigger] v@[j]@ == path@[j]@,
    {
        v.push(path[i].to_owned());
    }
    assert(strings_view(v@) =~= path_view(path@));
    v
}

impl Object {
    /// The value at `path`, references followed, or `None` where a key is
    /// missing, a step is not an object, the path is empty, or more than
    /// `max_depth` references would have to be followed.
    pub fn get_value(&self, path: &[&str]) -> (r: Option<&Value>)
        ensures
            opt_view(r) == lookup_path(self@, path_view(path@)),
    {
        let p = path_strings(path);
        self.get_value_impl(self, &p, 0, self.max_depth())
    }

    /// The value at `path`, if it holds a `T` as it is.
    pub fn get<T: GssType>(&self, path: &[&str]) -> (r: Option<&T>)
        ensures
            match r {
                Some(x) => lookup_path(self@, path_view(path@)) == Some(x.wrapped()) && T::holds(
                    x.wrapped(),
                ),
                None => match lookup_path(self@, path_view(path@)) {
                    Some(v) => !T::holds(v),
                    None => true,
                },
            },
    {
        match self.get_value(path) {
            Some(v) => T::downcast(v),
            None => None,
        }
    }

    /// The value at `path`, converted to a `T`.
    pub fn get_as<T: FromGssValue>(&self, path: &[&str]) -> (r: Option<T>)
        ensures
            match r {
                Some(x) => exists|v: ValueView|
                    lookup_path(self@, path_view(path@)) == Some(v) && T::convertible(v)
                        && T::converts(v, x),
                None => match lookup_path(self@, path_view(path@)) {
                    Some(v) => !T::convertible(v),
                    None => true,
                },
            },
    {
        match self.get_value(path) {
            Some(v) => T::from_gss_value(v),
            None => None,
        }
    }

    /// The value at `path` converted to a `T`, or `T::default()`.
    pub fn get_or_default<T: FromGssValue + Default>(&self, path: &[&str]) -> (r: T)
        ensures
            match lookup_path(self@, path_view(path@)) {
                Some(v) => if T::convertible(v) {
                    T::converts(v, r)
                } else {
                    call_ensures(T::default, (), r)
                },
                None => call_ensures(T::default, (), r),
            },
    {
        match self.get_as::<T>(path) {
            Some(x) => x,
            None => T::default(),
        }
    }

    /// The value at `path` converted to a `T`, or `default`.
    pub fn get_or<T: FromGssValue>(&self, path: &[&str], default: T) -> (r: T)
        ensures
            match lookup_path(self@, path_view(path@)) {
                Some(v) => if T::convertible(v) {
                    T::converts(v, r)
                } else {
                    r == default
                },
                None => r == default,
            },
    {
        match self.get_as::<T>(path) {
            Some(x) => x,
            None => default,
        }
    }
}

} // verus!
