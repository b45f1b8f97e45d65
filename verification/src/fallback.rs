//! A value with a fallback.
//!
//! [`Fallback`] stores a value and a base value, both optional, and reads the
//! base value wherever the value, or the part of it that is asked for, is missing.

use crate::str_map::StrMap;
use vstd::prelude::*;
use vstd::std_specs::convert::{FromSpec, FromSpecImpl};

verus! {

/// Stores two [`Option`]s, the data and the base data, and falls back from the
/// first to the second.
pub struct Fallback<T> {
    data: Option<T>,
    base_data: Option<T>,
}

impl<T> View for Fallback<T> {
    type V = (Option<T>, Option<T>);

    /// The data and the base data.
    closed spec fn view(&self) -> (Option<T>, Option<T>) {
        (self.data, self.base_data)
    }
}

/// An optional value mapped by `f`.
pub open spec fn proj<T, U>(o: Option<T>, f: spec_fn(T) -> U) -> Option<U> {
    match o {
        Some(t) => Some(f(t)),
        None => None,
    }
}

impl<T> Fallback<T> {
    /// The fallback with data `data` and base data `base_data`.
    pub closed spec fn of(data: Option<T>, base_data: Option<T>) -> Fallback<T> {
        Fallback { data, base_data }
    }

    /// The view of [`Fallback::of`] is its two arguments.
    pub broadcast proof fn lemma_of_view(data: Option<T>, base_data: Option<T>)
        ensures
            #[trigger] Self::of(data, base_data)@ == (data, base_data),
    {
    }

    /// Creates a new [`Fallback`].
    pub fn new(data: Option<T>, base_data: Option<T>) -> (f: Self)
        ensures
            f@ == (data, base_data),
            f == Self::of(data, base_data),
    {
        Self { data, base_data }
    }

    /// Returns `false` if both `data` and `base_data` are [`None`].
    pub fn is_some(&self) -> (b: bool)
        ensures
            b == (self@.0 is Some || self@.1 is Some),
    {
        self.data.is_some() || self.base_data.is_some()
    }

    /// Falls back from the result of `f` on the data to its result on the base data.
    pub fn and_then<V>(self, f: impl FnMut(T) -> Option<V>) -> (res: Option<V>)
        requires
            self@.0 is Some ==> call_requires(f, (self@.0->0,)),
            self@.1 is Some ==> call_requires(f, (self@.1->0,)),
        ensures
            self@.0 is None && self@.1 is None ==> res is None,
            self@.0 is None && self@.1 is Some ==> call_ensures(f, (self@.1->0,), res),
            self@.0 is Some ==> exists|first: Option<V>|
                #![trigger call_ensures(f, (self@.0->0,), first)]
                {
                    &&& call_ensures(f, (self@.0->0,), first)
                    &&& first is Some ==> res == first
                    &&& first is None && self@.1 is None ==> res is None
                    &&& first is None && self@.1 is Some ==> call_ensures(f, (self@.1->0,), res)
                },
    {
        let mut f = f;
        let Fallback { data, base_data } = self;
        if let Some(t) = data {
            let first = f(t);
            if first.is_some() {
                return first;
            }
        }
        match base_data {
            Some(t) => f(t),
            None => None,
        }
    }
    /// Converts from `&Fallback<T>` to `Fallback<&T>`.
    pub fn as_ref(&self) -> (f: Fallback<&T>)
        ensures
            f@.0 == (match self@.0 { Some(t) => Some(&t), None => None::<&T> }),
            f@.1 == (match self@.1 { Some(t) => Some(&t), None => None::<&T> }),
    {
        Fallback::new(self.data.as_ref(), self.base_data.as_ref())
    }

    /// Falls back on the whole data: the data if there is one, else the base data.
    pub fn fallback(self) -> (res: Option<T>)
        ensures
            res == (if self@.0 is Some { self@.0 } else { self@.1 }),
    {
        match self.data {
            Some(t) => Some(t),
            None => self.base_data,
        }
    }

    /// Maps both values to a new [`Fallback`].
    pub fn map<V>(self, f: impl FnMut(T) -> V) -> (res: Fallback<V>)
        requires
            self@.0 is Some ==> call_requires(f, (self@.0->0,)),
            self@.1 is Some ==> call_requires(f, (self@.1->0,)),
        ensures
            res@.0 is Some == self@.0 is Some,
            res@.1 is Some == self@.1 is Some,
            self@.0 is Some ==> call_ensures(f, (self@.0->0,), res@.0->0),
            self@.1 is Some ==> call_ensures(f, (self@.1->0,), res@.1->0),
    {
        let mut f = f;
        let Fallback { data, base_data } = self;
        let data = match data {
            Some(t) => Some(f(t)),
            None => None,
        };
        let base_data = match base_data {
            Some(t) => Some(f(t)),
            None => None,
        };
        Fallback::new(data, base_data)
    }

    /// Takes the data and the base data apart.
    pub fn unzip(self) -> (res: (Option<T>, Option<T>))
        ensures
            res == self@,
    {
        (self.data, self.base_data)
    }
}

impl<T> Fallback<Option<T>> {
    /// Converts from `Fallback<Option<T>>` to `Fallback<T>`.
    pub fn flatten(self) -> (f: Fallback<T>)
        ensures
            f@.0 == (match self@.0 { Some(o) => o, None => None::<T> }),
            f@.1 == (match self@.1 { Some(o) => o, None => None::<T> }),
    {
        let Fallback { data, base_data } = self;
        let data = match data {
            Some(o) => o,
            None => None,
        };
        let base_data = match base_data {
            Some(o) => o,
            None => None,
        };
        Fallback::new(data, base_data)
    }
}

/// Containers that can be empty.
pub trait IsEmpty2 {
    /// Whether the container holds nothing.
    spec fn empty_spec(&self) -> bool;

    /// Whether the container holds nothing.
    fn is_empty2(&self) -> (b: bool)
        ensures
            b == self.empty_spec(),
    ;
}

impl IsEmpty2 for String {
    open spec fn empty_spec(&self) -> bool {
        self@.len() == 0
    }

    fn is_empty2(&self) -> (b: bool) {
        self.as_str().is_empty()
    }
}

impl<T> IsEmpty2 for Vec<T> {
    open spec fn empty_spec(&self) -> bool {
        self@.len() == 0
    }

    fn is_empty2(&self) -> (b: bool) {
        self.len() == 0
    }
}

impl<V> IsEmpty2 for StrMap<V> {
    open spec fn empty_spec(&self) -> bool {
        self@.dom().len() == 0
    }

    fn is_empty2(&self) -> (b: bool) {
        self.is_empty()
    }
}

/// The first of the two values that is present and not empty.
pub open spec fn any_spec<T: IsEmpty2>(f: (Option<T>, Option<T>)) -> Option<T> {
    if f.0 is Some && !f.0->0.empty_spec() {
        f.0
    } else if f.1 is Some && !f.1->0.empty_spec() {
        f.1
    } else {
        None
    }
}

impl<T: IsEmpty2> Fallback<T> {
    /// Treats an empty container as [`None`] and falls back.
    pub fn and_any(self) -> (res: Option<T>)
        ensures
            res == any_spec(self@),
    {
        let Fallback { data, base_data } = self;
        if let Some(t) = data {
            if !t.is_empty2() {
                return Some(t);
            }
        }
        match base_data {
            Some(t) => if t.is_empty2() {
                None
            } else {
                Some(t)
            },
            None => None,
        }
    }
}

impl<T> From<Fallback<T>> for Option<T> {
    fn from(f: Fallback<T>) -> (res: Self) {
        let Fallback { data, base_data } = f;
        if data.is_some() {
            data
        } else {
            base_data
        }
    }
}

impl<T> FromSpecImpl<Fallback<T>> for Option<T> {
    open spec fn obeys_from_spec() -> bool {
        true
    }

    open spec fn from_spec(f: Fallback<T>) -> Option<T> {
        if f@.0 is Some {
            f@.0
        } else {
            f@.1
        }
    }
}

/// The first item of a sequence, if it has one.
pub open spec fn head<T>(s: Seq<T>) -> Option<T> {
    if s.len() > 0 {
        Some(s[0])
    } else {
        None
    }
}

/// A sequence without its first item, if it has one.
pub open spec fn rest<T>(s: Seq<T>) -> Seq<T> {
    if s.len() > 0 {
        s.drop_first()
    } else {
        s
    }
}

/// Walks the items of two vectors side by side, as [`Fallback`]s.
pub struct FallbackIter<T> {
    data: Vec<T>,
    base_data: Vec<T>,
}

impl<T> View for FallbackIter<T> {
    type V = (Seq<T>, Seq<T>);

    /// The items of both vectors that are still to come.
    closed spec fn view(&self) -> (Seq<T>, Seq<T>) {
        (self.data@, self.base_data@)
    }
}

impl<T> FallbackIter<T> {
    /// The next pair of items, while either vector has one.
    pub fn next(&mut self) -> (res: Option<Fallback<T>>)
        ensures
            final(self)@ == (rest(old(self)@.0), rest(old(self)@.1)),
            res is None <==> (old(self)@.0.len() == 0 && old(self)@.1.len() == 0),
            res is Some ==> res->0@ == (head(old(self)@.0), head(old(self)@.1)),
    {
        let d = if self.data.len() > 0 {
            Some(self.data.remove(0))
        } else {
            None
        };
        let based = if self.base_data.len() > 0 {
            Some(self.base_data.remove(0))
        } else {
            None
        };
        proof {
            assert(old(self).data@.len() > 0 ==> self.data@ =~= old(self).data@.drop_first());
            assert(old(self).base_data@.len() > 0 ==> self.base_data@ =~= old(self).base_data@.drop_first());
        }
        if d.is_some() || based.is_some() {
            Some(Fallback::new(d, based))
        } else {
            None
        }
    }
}

/// A vector, or the empty one.
pub open spec fn seq_or_empty<T>(v: Option<Vec<T>>) -> Seq<T> {
    match v {
        Some(v) => v@,
        None => Seq::empty(),
    }
}

impl<T> Fallback<Vec<T>> {
    /// Walks the items of both vectors side by side; a missing vector counts as empty.
    pub fn into_iter(self) -> (it: FallbackIter<T>)
        ensures
            it@ == (seq_or_empty(self@.0), seq_or_empty(self@.1)),
    {
        let Fallback { data, base_data } = self;
        let data = match data {
            Some(v) => v,
            None => Vec::new(),
        };
        let base_data = match base_data {
            Some(v) => v,
            None => Vec::new(),
        };
        FallbackIter { data, base_data }
    }
}

/// Types with a companion type that holds a [`Fallback`] of each field.
pub trait FallbackSpec: Sized {
    /// The companion type.
    type SpecType: From<Fallback<Self>>;
}

impl<T: FallbackSpec> Fallback<T> {
    /// Splits the fallback of a whole value into the fallbacks of its fields.
    pub fn spec(self) -> (res: T::SpecType)
        ensures
            <T::SpecType as FromSpec<Fallback<T>>>::obeys_from_spec() ==> res
                == <T::SpecType as FromSpec<Fallback<T>>>::from_spec(self),
    {
        T::SpecType::from(self)
    }
}

/// `o` with `g` applied to the value it holds, if any.
pub open spec fn opt_apply<T, V>(o: Option<T>, g: spec_fn(T) -> V) -> Option<V> {
    match o {
        Some(t) => Some(g(t)),
        None => None,
    }
}

/// The value a pair of data and base data falls back to: the data where
/// there is some, and else the base data.
pub open spec fn fallback_of<T>(p: (Option<T>, Option<T>)) -> Option<T> {
    if p.0 is Some {
        p.0
    } else {
        p.1
    }
}

/// Mapping commutes with falling back. Where `f` always gives `g` of its
/// argument, and `res` is what [`Fallback::map`] gives for `x` and `f`, `res`
/// holds `g` of the data and `g` of the base data, and falls back to `g` of
/// what `x` falls back to.
pub proof fn lemma_map_fallback<T, V, F: FnMut(T) -> V>(
    x: Fallback<T>,
    f: F,
    g: spec_fn(T) -> V,
    res: Fallback<V>,
)
    requires
        forall|a: T, b: V| #[trigger] call_ensures(f, (a,), b) ==> b == g(a),
        res@.0 is Some == x@.0 is Some,
        res@.1 is Some == x@.1 is Some,
        x@.0 is Some ==> call_ensures(f, (x@.0->0,), res@.0->0),
        x@.1 is Some ==> call_ensures(f, (x@.1->0,), res@.1->0),
    ensures
        res@ == (opt_apply(x@.0, g), opt_apply(x@.1, g)),
        fallback_of(res@) == opt_apply(fallback_of(x@), g),
{
}

} // verus!
