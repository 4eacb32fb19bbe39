//! A single route: a pattern of literal and placeholder segments, the types of
//! its placeholders, and the factory that builds a view from decoded values.

use vstd::prelude::*;
use crate::param::{decodes_as, is_decoded, parse_u64, ParamType, ParamValue};
use crate::path::{chars_of, pieces, same_chars, segment_spans, segments, spans_within};

verus! {

/// A segment that starts with `:` is a placeholder named by the rest of it.
pub open spec fn is_placeholder(seg: Seq<char>) -> bool {
    seg.len() > 0 && seg[0] == ':'
}

/// The type declared for `name`: that of the first entry with that name.
pub open spec fn lookup_type(types: Seq<(Seq<char>, ParamType)>, name: Seq<char>) -> Option<
    ParamType,
>
    decreases types.len(),
{
    if types.len() == 0 {
        None
    } else if types[0].0 == name {
        Some(types[0].1)
    } else {
        lookup_type(types.drop_first(), name)
    }
}

/// Whether one path segment matches one pattern segment: a literal must be
/// equal; a placeholder takes any non-empty segment that decodes as its
/// declared type, and none if no type is declared for it.
pub open spec fn segment_matches(
    pat: Seq<char>,
    seg: Seq<char>,
    types: Seq<(Seq<char>, ParamType)>,
) -> bool {
    if is_placeholder(pat) {
        seg.len() > 0 && match lookup_type(types, pat.drop_first()) {
            Some(ty) => decodes_as(ty, seg),
            None => false,
        }
    } else {
        pat == seg
    }
}

/// Whether `path` matches `pattern`: as many segments, each matching.
pub open spec fn pattern_matches(
    pattern: Seq<char>,
    types: Seq<(Seq<char>, ParamType)>,
    path: Seq<char>,
) -> bool {
    let ps = segments(pattern);
    let ss = segments(path);
    &&& ps.len() == ss.len()
    &&& forall|i: int| 0 <= i < ps.len() ==> segment_matches(#[trigger] ps[i], ss[i], types)
}

/// The placeholders of `ps`, in order, each with the segment of `ss` at its place.
pub open spec fn bindings(ps: Seq<Seq<char>>, ss: Seq<Seq<char>>) -> Seq<(Seq<char>, Seq<char>)>
    decreases ps.len(),
{
    if ps.len() == 0 || ss.len() == 0 {
        Seq::empty()
    } else {
        let rest = bindings(ps.drop_last(), ss.drop_last());
        if is_placeholder(ps.last()) {
            rest.push((ps.last().drop_first(), ss.last()))
        } else {
            rest
        }
    }
}

/// Whether `v` is the value that `seg` decodes to under the type declared for `name`.
pub open spec fn binding_decoded(
    v: ParamValue,
    types: Seq<(Seq<char>, ParamType)>,
    name: Seq<char>,
    seg: Seq<char>,
) -> bool {
    match lookup_type(types, name) {
        Some(ty) => is_decoded(v, ty, seg),
        None => false,
    }
}

/// Whether `params` holds, in pattern order, each placeholder's name and the
/// value decoded from its segment of `path`.
pub open spec fn params_of(
    pattern: Seq<char>,
    types: Seq<(Seq<char>, ParamType)>,
    path: Seq<char>,
    params: Seq<(String, ParamValue)>,
) -> bool {
    let b = bindings(segments(pattern), segments(path));
    &&& params.len() == b.len()
    &&& forall|k: int|
        0 <= k < b.len() ==> (#[trigger] params[k]).0@ == b[k].0 && binding_decoded(
            params[k].1,
            types,
            b[k].0,
            b[k].1,
        )
}

/// The value of the first entry named `name`.
pub open spec fn first_value(entries: Seq<(String, ParamValue)>, name: Seq<char>) -> Option<
    ParamValue,
>
    decreases entries.len(),
{
    if entries.len() == 0 {
        None
    } else if entries[0].0@ == name {
        Some(entries[0].1)
    } else {
        first_value(entries.drop_first(), name)
    }
}

/// The decoded placeholder values that a view factory receives, in the order
/// of the pattern.
pub struct RouteParams {
    entries: Vec<(String, ParamValue)>,
}

impl View for RouteParams {
    type V = Seq<(String, ParamValue)>;

    closed spec fn view(&self) -> Seq<(String, ParamValue)> {
        self.entries@
    }
}

impl RouteParams {
    /// The value of the placeholder `name`.
    pub fn get(&self, name: &str) -> (r: Option<&ParamValue>)
        ensures
            match r {
                Some(v) => first_value(self@, name@) == Some(*v),
                None => first_value(self@, name@) is None,
            },
    {
        let wanted = chars_of(name);
        let n = self.entries.len();
        let mut i: usize = 0;
        assert(self@.subrange(0, n as int) =~= self@);
        while i < n
            invariant
                n == self@.len(),
                i <= n,
                wanted@ == name@,
                first_value(self@, name@) == first_value(self@.subrange(i as int, n as int), name@),
            decreases n - i,
        {
            assert(self@.subrange(i as int, n as int).drop_first() =~= self@.subrange(
                i + 1,
                n as int,
            ));
            let key = chars_of(self.entries[i].0.as_str());
            if same_chars(&key, 0, key.len(), &wanted, 0, wanted.len()) {
                assert(key@.subrange(0, key@.len() as int) =~= key@);
                assert(wanted@.subrange(0, wanted@.len() as int) =~= wanted@);
                return Some(&self.entries[i].1);
            }
            assert(key@.subrange(0, key@.len() as int) =~= key@);
            assert(wanted@.subrange(0, wanted@.len() as int) =~= wanted@);
            i = i + 1;
        }
        None
    }
}

/// A pattern such as `/users/:id`, the types of its placeholders, and the
/// factory that builds a view from the values decoded out of a matching path.
pub struct Route<F> {
    pattern: String,
    param_types: Vec<(String, ParamType)>,
    factory: F,
}

impl<F> Route<F> {
    /// The pattern's characters.
    pub closed spec fn pattern_view(&self) -> Seq<char> {
        self.pattern@
    }

    /// The declared placeholder types, as (name, type) in the order given.
    pub closed spec fn types_view(&self) -> Seq<(Seq<char>, ParamType)> {
        self.param_types@.map_values(|e: (String, ParamType)| (e.0@, e.1))
    }

    /// The view factory.
    pub closed spec fn factory_view(&self) -> F {
        self.factory
    }

    /// Whether `path` matches this route.
    pub open spec fn matches_spec(&self, path: Seq<char>) -> bool {
        pattern_matches(self.pattern_view(), self.types_view(), path)
    }

    /// Whether `params` is what this route decodes out of `path`.
    pub open spec fn params_spec(&self, path: Seq<char>, params: Seq<(String, ParamValue)>) -> bool {
        params_of(self.pattern_view(), self.types_view(), path, params)
    }

    /// A route for `pattern`, whose placeholders have the types `param_types`
    /// (the first entry of a name counts), with `factory` to build its views.
    pub fn new(pattern: &str, param_types: Vec<(String, ParamType)>, factory: F) -> (r: Self)
        ensures
            r.pattern_view() == pattern@,
            r.types_view() == param_types@.map_values(|e: (String, ParamType)| (e.0@, e.1)),
            r.factory_view() == factory,
    {
        Route { pattern: pattern.to_owned(), param_types, factory }
    }

    /// The type declared for the placeholder named `name[a..b]`.
    fn lookup(&self, name: &Vec<char>, a: usize, b: usize) -> (r: Option<ParamType>)
        requires
            a <= b <= name@.len(),
        ensures
            r == lookup_type(self.types_view(), name@.subrange(a as int, b as int)),
    {
        let ghost types = self.types_view();
        let n = self.param_types.len();
        let mut i: usize = 0;
        assert(types.subrange(0, n as int) =~= types);
        while i < n
            invariant
                n == types.len(),
                types == self.types_view(),
                i <= n,
                a <= b <= name@.len(),
                lookup_type(types, name@.subrange(a as int, b as int)) == lookup_type(
                    types.subrange(i as int, n as int),
                    name@.subrange(a as int, b as int),
                ),
            decreases n - i,
        {
            assert(types.subrange(i as int, n as int).drop_first() =~= types.subrange(
                i + 1,
                n as int,
            ));
            let key = chars_of(self.param_types[i].0.as_str());
            assert(key@.subrange(0, key@.len() as int) =~= key@);
            if same_chars(&key, 0, key.len(), name, a, b) {
                return Some(self.param_types[i].1);
            }
            i = i + 1;
        }
        None
    }

    /// Whether the path segment `seg[x0..x1]` matches the pattern segment
    /// `pat[p0..p1]`.
    fn segment_ok(
        &self,
        pat: &Vec<char>,
        p0: usize,
        p1: usize,
        seg: &Vec<char>,
        x0: usize,
        x1: usize,
    ) -> (r: bool)
        requires
            p0 <= p1 <= pat@.len(),
            x0 <= x1 <= seg@.len(),
        ensures
            r == segment_matches(
                pat@.subrange(p0 as int, p1 as int),
                seg@.subrange(x0 as int, x1 as int),
                self.types_view(),
            ),
    {
        let ghost p = pat@.subrange(p0 as int, p1 as int);
        if p0 < p1 && pat[p0] == ':' {
            assert(p.drop_first() =~= pat@.subrange(p0 + 1, p1 as int));
            if x0 == x1 {
                return false;
            }
            match self.lookup(pat, p0 + 1, p1) {
                Some(ParamType::String) => true,
                Some(ParamType::U64) => parse_u64(seg, x0, x1).is_some(),
                None => false,
            }
        } else {
            same_chars(pat, p0, p1, seg, x0, x1)
        }
    }

    /// Whether `path` matches this route: its segments and the pattern's are
    /// as many, each literal is equal, and each placeholder's segment is
    /// non-empty and decodes as its declared type.
    pub fn matches(&self, path: &str) -> (r: bool)
        ensures
            r == self.matches_spec(path@),
    {
        let pat = chars_of(self.pattern.as_str());
        let ps = segment_spans(&pat);
        let seg = chars_of(path);
        let xs = segment_spans(&seg);
        let ghost pp = segments(pat@);
        let ghost ss = segments(seg@);
        if ps.len() != xs.len() {
            return false;
        }
        let n = ps.len();
        let mut i: usize = 0;
        while i < n
            invariant
                n == ps@.len() == xs@.len() == pp.len() == ss.len(),
                pp == pieces(pat@, ps@),
                ss == pieces(seg@, xs@),
                pp == segments(self.pattern_view()),
                ss == segments(path@),
                spans_within(pat@, ps@),
                spans_within(seg@, xs@),
                i <= n,
                forall|j: int| 0 <= j < i ==> segment_matches(#[trigger] pp[j], ss[j], self.types_view()),
            decreases n - i,
        {
            let (p0, p1) = ps[i];
            let (x0, x1) = xs[i];
            assert(ps@[i as int].0 <= ps@[i as int].1 <= pat@.len());
            assert(xs@[i as int].0 <= xs@[i as int].1 <= seg@.len());
            if !self.segment_ok(&pat, p0, p1, &seg, x0, x1) {
                assert(!segment_matches(pp[i as int], ss[i as int], self.types_view()));
                return false;
            }
            i = i + 1;
        }
        true
    }
}

impl<F> Route<F> {
    /// The placeholders' names and decoded values, in pattern order, for a
    /// path that matches this route.
    pub fn params(&self, path: &str) -> (r: RouteParams)
        requires
            self.matches_spec(path@),
        ensures
            self.params_spec(path@, r@),
    {
        let pat = chars_of(self.pattern.as_str());
        let ps = segment_spans(&pat);
        let seg = chars_of(path);
        let xs = segment_spans(&seg);
        let ghost pp = segments(pat@);
        let ghost ss = segments(seg@);
        let ghost types = self.types_view();
        let n = ps.len();
        let mut entries: Vec<(String, ParamValue)> = Vec::new();
        let mut i: usize = 0;
        while i < n
            invariant
                n == ps@.len() == xs@.len() == pp.len() == ss.len(),
                pp == pieces(pat@, ps@),
                ss == pieces(seg@, xs@),
                pp == segments(pat@),
                ss == segments(seg@),
                pat@ == self.pattern_view(),
                seg@ == path@,
                types == self.types_view(),
                self.matches_spec(path@),
                spans_within(pat@, ps@),
                spans_within(seg@, xs@),
                i <= n,
                ({
                    let b = bindings(pp.subrange(0, i as int), ss.subrange(0, i as int));
                    &&& entries@.len() == b.len()
                    &&& forall|k: int|
                        0 <= k < b.len() ==> (#[trigger] entries@[k]).0@ == b[k].0
                            && binding_decoded(entries@[k].1, types, b[k].0, b[k].1)
                }),
            decreases n - i,
        {
            let ghost before = bindings(pp.subrange(0, i as int), ss.subrange(0, i as int));
            assert(pp.subrange(0, i + 1).drop_last() =~= pp.subrange(0, i as int));
            assert(ss.subrange(0, i + 1).drop_last() =~= ss.subrange(0, i as int));
            let (p0, p1) = ps[i];
            let (x0, x1) = xs[i];
            assert(ps@[i as int].0 <= ps@[i as int].1 <= pat@.len());
            assert(xs@[i as int].0 <= xs@[i as int].1 <= seg@.len());
            assert(segment_matches(pp[i as int], ss[i as int], types));
            if p0 < p1 && pat[p0] == ':' {
                assert(pp[i as int].drop_first() =~= pat@.subrange(p0 + 1, p1 as int));
                let ty = self.lookup(&pat, p0 + 1, p1).unwrap();
                let name = self.pattern.as_str().substring_char(p0 + 1, p1).to_owned();
                let value = match ty {
                    ParamType::String => ParamValue::Text(path.substring_char(x0, x1).to_owned()),
                    ParamType::U64 => ParamValue::U64(parse_u64(&seg, x0, x1).unwrap()),
                };
                entries.push((name, value));
            } else {
                assert(!is_placeholder(pp[i as int]));
            }
            i = i + 1;
        }
        assert(pp.subrange(0, n as int) =~= pp);
        assert(ss.subrange(0, n as int) =~= ss);
        RouteParams { entries }
    }
}

impl<V, F: Fn(RouteParams) -> V> Route<F> {
    /// The factory accepts any parameters.
    pub open spec fn factory_total(&self) -> bool {
        forall|p: RouteParams| call_requires(self.factory_view(), (p,))
    }

    /// The view that the factory builds from the values decoded out of `path`,
    /// which must match this route.
    pub fn view(&self, path: &str) -> (r: V)
        requires
            self.matches_spec(path@),
            self.factory_total(),
        ensures
            exists|p: RouteParams|
                self.params_spec(path@, p@) && call_ensures(self.factory_view(), (p,), r),
    {
        let params = self.params(path);
        assert(call_requires(self.factory_view(), (params,)));
        (self.factory)(params)
    }
}

} // verus!
