//! Basic JSONPath generation and manipulation.  There is just enough
//! JSONPath support within this module to back what the SAX and DOM parsers
//! do: rooted and partial paths built from name, index, wildcard and range
//! selectors, with strict and relaxed matching between paths.
use crate::text::{push_char, spec_udec, usize_to_string};
use vstd::prelude::*;

verus! {

/// An enumeration of various different path components.
#[derive(Debug, PartialEq)]
pub enum JsonPathComponent {
    /// The root element `$`
    Root,
    /// A name selector component
    NameSelector(String),
    /// Wildcard selector
    WildcardSelector,
    /// Index selector
    IndexSelector(usize),
    /// Range selector
    RangeSelector(usize, usize),
}

/// The mathematical image of a single path component.
pub enum PathSegModel {
    /// Root selector
    Root,
    /// Name selector
    Name(Seq<char>),
    /// Wildcard selector
    Wildcard,
    /// Index selector
    Index(int),
    /// Range selector
    Range(int, int),
}

/// The abstraction of an executable path component.
pub open spec fn path_seg_model(c: JsonPathComponent) -> PathSegModel {
    match c {
        JsonPathComponent::Root => PathSegModel::Root,
        JsonPathComponent::NameSelector(s) => PathSegModel::Name(s@),
        JsonPathComponent::WildcardSelector => PathSegModel::Wildcard,
        JsonPathComponent::IndexSelector(i) => PathSegModel::Index(i as int),
        JsonPathComponent::RangeSelector(i, j) => PathSegModel::Range(i as int, j as int),
    }
}

/// A name with any literal `"` scalars removed.
pub open spec fn strip_quotes(s: Seq<char>) -> Seq<char>
    decreases s.len(),
{
    if s.len() == 0 {
        Seq::<char>::empty()
    } else if s.last() == '"' {
        strip_quotes(s.drop_last())
    } else {
        strip_quotes(s.drop_last()).push(s.last())
    }
}

/// The rendering of a single path component.
pub open spec fn spec_render_path_seg(s: PathSegModel) -> Seq<char> {
    match s {
        PathSegModel::Root => seq!['$'],
        PathSegModel::Name(n) => seq!['[', '\''] + n + seq!['\'', ']'],
        PathSegModel::Wildcard => seq!['[', '*', ']'],
        PathSegModel::Index(i) => seq!['['] + spec_udec(i) + seq![']'],
        PathSegModel::Range(i, j) => seq!['['] + spec_udec(i) + seq!['.', '.'] + spec_udec(j)
            + seq![']'],
    }
}

/// The rendering of a whole path: its components joined by `.`.
pub open spec fn spec_render_path(cs: Seq<PathSegModel>) -> Seq<char>
    decreases cs.len(),
{
    if cs.len() == 0 {
        Seq::<char>::empty()
    } else if cs.len() == 1 {
        spec_render_path_seg(cs.last())
    } else {
        spec_render_path(cs.drop_last()) + seq!['.'] + spec_render_path_seg(cs.last())
    }
}

/// A partial path carries no root selector in its first position.
pub open spec fn spec_is_partial(cs: Seq<PathSegModel>) -> bool {
    cs.len() == 0 || cs[0] != PathSegModel::Root
}

/// Relaxed matching between two single components: a wildcard matches any
/// index, an index matches a range that contains it, everything else
/// matches by equality.
pub open spec fn spec_match_components(a: PathSegModel, b: PathSegModel) -> bool {
    match (a, b) {
        (PathSegModel::Index(i), PathSegModel::Index(j)) => i == j,
        (PathSegModel::Index(i), PathSegModel::Range(j, k)) => j <= i && i <= k,
        (PathSegModel::Range(j, k), PathSegModel::Index(i)) => j <= i && i <= k,
        (PathSegModel::Wildcard, PathSegModel::Index(_)) => true,
        (PathSegModel::Index(_), PathSegModel::Wildcard) => true,
        _ => a == b,
    }
}

/// Strict matching between two whole paths: equal length, equal components.
pub open spec fn spec_matches_strict(a: Seq<PathSegModel>, b: Seq<PathSegModel>) -> bool {
    a.len() == b.len() && (forall|k: int| 0 <= k < a.len() ==> a[k] == b[k])
}

/// Relaxed matching between two whole paths: equal length, componentwise
/// relaxed matching.
pub open spec fn spec_matches(a: Seq<PathSegModel>, b: Seq<PathSegModel>) -> bool {
    a.len() == b.len() && (forall|k: int|
        0 <= k < a.len() ==> spec_match_components(a[k], b[k]))
}

/// Struct for creating and manipulating JSON paths.  Each instance of
/// [`JsonPath`] comprises multiple [`JsonPathComponent`]s.
#[derive(Debug)]
pub struct JsonPath {
    /// The path components
    components: Vec<JsonPathComponent>,
}

impl View for JsonPath {
    type V = Seq<PathSegModel>;

    closed spec fn view(&self) -> Seq<PathSegModel> {
        self.components@.map(|i: int, c: JsonPathComponent| path_seg_model(c))
    }
}

/// Componentwise equality of two executable path components, decided over
/// their images.
fn component_eq(a: &JsonPathComponent, b: &JsonPathComponent) -> (r: bool)
    ensures
        r == (path_seg_model(*a) == path_seg_model(*b)),
{
    match (a, b) {
        (JsonPathComponent::Root, JsonPathComponent::Root) => true,
        (JsonPathComponent::NameSelector(x), JsonPathComponent::NameSelector(y)) => String::eq(x, y),
        (JsonPathComponent::WildcardSelector, JsonPathComponent::WildcardSelector) => true,
        (JsonPathComponent::IndexSelector(i), JsonPathComponent::IndexSelector(j)) => i == j,
        (JsonPathComponent::RangeSelector(i, j), JsonPathComponent::RangeSelector(k, l)) => (i == k)
            && (j == l),
        _ => false,
    }
}

impl JsonPath {
    /// Create a new, partial (no root) [`JsonPath`] instance.
    pub fn new_partial() -> (r: JsonPath)
        ensures
            r@ =~= Seq::<PathSegModel>::empty(),
    {
        JsonPath { components: Vec::new() }
    }

    /// Create a new [`JsonPath`] instance with just a root component.
    pub fn new() -> (r: JsonPath)
        ensures
            r@ =~= seq![PathSegModel::Root],
    {
        let mut components: Vec<JsonPathComponent> = Vec::new();
        components.push(JsonPathComponent::Root);
        JsonPath { components }
    }

    /// Is this an empty path?
    pub fn is_empty(&self) -> (r: bool)
        ensures
            r == (self@.len() == 0),
    {
        self.components.len() == 0
    }

    /// A partial path doesn't have a [`JsonPathComponent::Root`] in the
    /// first position.
    pub fn is_partial(&self) -> (r: bool)
        ensures
            r == spec_is_partial(self@),
    {
        if self.components.len() == 0 {
            true
        } else {
            match &self.components[0] {
                JsonPathComponent::Root => false,
                _ => true,
            }
        }
    }

    /// Returns the number of [`JsonPathComponent`]s within the path.
    pub fn len(&self) -> (r: usize)
        ensures
            r == self@.len(),
    {
        self.components.len()
    }

    /// Render a string representation of the path.
    pub fn as_string(&self) -> (r: String)
        ensures
            r@ == spec_render_path(self@),
    {
        let mut r = String::new();
        let mut i: usize = 0;
        while i < self.components.len()
            invariant
                i <= self.components@.len(),
                self@.len() == self.components@.len(),
                r@ == spec_render_path(self@.take(i as int)),
            decreases self.components@.len() - i,
        {
            if i > 0 {
                push_char(&mut r, '.');
            }
            match &self.components[i] {
                JsonPathComponent::Root => {
                    push_char(&mut r, '$');
                },
                JsonPathComponent::NameSelector(name) => {
                    push_char(&mut r, '[');
                    push_char(&mut r, '\'');
                    r.append(name.as_str());
                    push_char(&mut r, '\'');
                    push_char(&mut r, ']');
                },
                JsonPathComponent::WildcardSelector => {
                    push_char(&mut r, '[');
                    push_char(&mut r, '*');
                    push_char(&mut r, ']');
                },
                JsonPathComponent::IndexSelector(index) => {
                    push_char(&mut r, '[');
                    let d = usize_to_string(*index);
                    r.append(d.as_str());
                    push_char(&mut r, ']');
                },
                JsonPathComponent::RangeSelector(start, end) => {
                    push_char(&mut r, '[');
                    let d = usize_to_string(*start);
                    r.append(d.as_str());
                    push_char(&mut r, '.');
                    push_char(&mut r, '.');
                    let e = usize_to_string(*end);
                    r.append(e.as_str());
                    push_char(&mut r, ']');
                },
            }
            i = i + 1;
            proof {
                assert(self@.take(i as int).drop_last() =~= self@.take(i - 1));
                assert(self@.take(i as int).last() == self@[i - 1]);
                assert(r@ =~= spec_render_path(self@.take(i as int)));
            }
        }
        proof {
            assert(self@.take(self@.len() as int) =~= self@);
        }
        r
    }

    /// Push a new [`JsonPathComponent::NameSelector`] based on a string
    /// slice, with any literal `"` scalars stripped from the name.
    pub fn push_str_selector(&mut self, name: &str)
        ensures
            final(self)@ =~= old(self)@.push(PathSegModel::Name(strip_quotes(name@))),
    {
        let n = name.unicode_len();
        let mut cleaned = String::new();
        let mut i: usize = 0;
        while i < n
            invariant
                i <= n,
                n == name@.len(),
                cleaned@ == strip_quotes(name@.take(i as int)),
            decreases n - i,
        {
            let c = name.get_char(i);
            if c != '"' {
                push_char(&mut cleaned, c);
            }
            i = i + 1;
            proof {
                assert(name@.take(i as int).drop_last() =~= name@.take(i - 1));
                assert(name@.take(i as int).last() == name@[i - 1]);
                assert(cleaned@ =~= strip_quotes(name@.take(i as int)));
            }
        }
        proof {
            assert(name@.take(n as int) =~= name@);
        }
        self.components.push(JsonPathComponent::NameSelector(cleaned));
    }

    /// Push a new [`JsonPathComponent::IndexSelector`] based on a given
    /// index.
    pub fn push_index_select(&mut self, index: usize)
        ensures
            final(self)@ =~= old(self)@.push(PathSegModel::Index(index as int)),
    {
        self.components.push(JsonPathComponent::IndexSelector(index));
    }

    /// Push a new [`JsonPathComponent::RangeSelector`] based on a given
    /// start and end index.
    pub fn push_range_selector(&mut self, start: usize, end: usize)
        ensures
            final(self)@ =~= old(self)@.push(PathSegModel::Range(start as int, end as int)),
    {
        self.components.push(JsonPathComponent::RangeSelector(start, end));
    }

    /// Push a new [`JsonPathComponent::WildcardSelector`].
    pub fn push_wildcard_selector(&mut self)
        ensures
            final(self)@ =~= old(self)@.push(PathSegModel::Wildcard),
    {
        self.components.push(JsonPathComponent::WildcardSelector);
    }

    /// Appends a new [`JsonPathComponent`] to the end of the path.
    pub fn push(&mut self, component: JsonPathComponent)
        ensures
            final(self)@ =~= old(self)@.push(path_seg_model(component)),
    {
        self.components.push(component);
    }

    /// Pops the last [`JsonPathComponent`] from the end of the path (if it
    /// exists).
    pub fn pop(&mut self) -> (r: Option<JsonPathComponent>)
        ensures
            old(self)@.len() == 0 ==> r is None && *final(self) == *old(self),
            old(self)@.len() > 0 ==> (r matches Some(c) && path_seg_model(c) == old(self)@.last()
                && final(self)@ =~= old(self)@.drop_last()),
    {
        if self.components.len() == 0 {
            None
        } else {
            let c = self.components.pop().unwrap();
            Some(c)
        }
    }

    /// Checks whether the path points to an array element within the source
    /// JSON.
    pub fn is_array_path(&self) -> (r: bool)
        ensures
            r == (self@.len() > 0 && self@.last() is Index),
    {
        if self.components.len() == 0 {
            false
        } else {
            match &self.components[self.components.len() - 1] {
                JsonPathComponent::IndexSelector(_) => true,
                _ => false,
            }
        }
    }

    /// Determines whether this path matches another path strictly: each
    /// component must be identical.
    pub fn matches_strict(&self, rhs: &JsonPath) -> (r: bool)
        ensures
            r == spec_matches_strict(self@, rhs@),
    {
        if self.components.len() != rhs.components.len() {
            return false;
        }
        let mut i: usize = 0;
        while i < self.components.len()
            invariant
                i <= self.components@.len(),
                self@.len() == self.components@.len(),
                rhs@.len() == self@.len(),
                forall|k: int| 0 <= k < i ==> self@[k] == rhs@[k],
            decreases self.components@.len() - i,
        {
            if !component_eq(&self.components[i], &rhs.components[i]) {
                proof {
                    assert(self@[i as int] != rhs@[i as int]);
                }
                return false;
            }
            i = i + 1;
        }
        true
    }

    /// Determines whether this path matches another path under the relaxed
    /// rules: wildcards match indices, and indices match ranges that
    /// contain them.
    pub fn matches(&self, rhs: &JsonPath) -> (r: bool)
        ensures
            r == spec_matches(self@, rhs@),
    {
        if self.components.len() != rhs.components.len() {
            return false;
        }
        let mut i: usize = 0;
        while i < self.components.len()
            invariant
                i <= self.components@.len(),
                self@.len() == self.components@.len(),
                rhs@.len() == self@.len(),
                forall|k: int| 0 <= k < i ==> spec_match_components(self@[k], rhs@[k]),
            decreases self.components@.len() - i,
        {
            if !Self::match_path_components(&self.components[i], &rhs.components[i]) {
                proof {
                    assert(!spec_match_components(self@[i as int], rhs@[i as int]));
                }
                return false;
            }
            i = i + 1;
        }
        true
    }

    /// Pattern match on pairs of [`JsonPathComponent`]s, performing the
    /// relaxed equality checks for index, range and wildcard selectors.
    fn match_path_components(a: &JsonPathComponent, b: &JsonPathComponent) -> (r: bool)
        ensures
            r == spec_match_components(path_seg_model(*a), path_seg_model(*b)),
    {
        match (a, b) {
            (JsonPathComponent::IndexSelector(i), JsonPathComponent::IndexSelector(j)) => i == j,
            (JsonPathComponent::IndexSelector(i), JsonPathComponent::RangeSelector(j, k)) => (*j
                <= *i) && (*i <= *k),
            (JsonPathComponent::RangeSelector(j, k), JsonPathComponent::IndexSelector(i)) => (*j
                <= *i) && (*i <= *k),
            (JsonPathComponent::WildcardSelector, JsonPathComponent::IndexSelector(_)) => true,
            (JsonPathComponent::IndexSelector(_), JsonPathComponent::WildcardSelector) => true,
            _ => component_eq(a, b),
        }
    }

    /// Returns the (optional) head of the path, removing it.
    pub fn head(&mut self) -> (r: Option<JsonPathComponent>)
        ensures
            old(self)@.len() == 0 ==> r is None && *final(self) == *old(self),
            old(self)@.len() > 0 ==> (r matches Some(c) && path_seg_model(c) == old(self)@[0]
                && final(self)@ =~= old(self)@.drop_first()),
    {
        if self.components.len() == 0 {
            None
        } else {
            let c = self.components.remove(0);
            proof {
                assert(final(self)@ =~= old(self)@.drop_first());
            }
            Some(c)
        }
    }

    /// Returns a new [`JsonPath`] instance containing the tail elements of
    /// the path, leaving only the head behind.  If the existing path is
    /// empty, or only has a single element, then `None` is returned and the
    /// path is left alone.
    pub fn tail(&mut self) -> (r: Option<JsonPath>)
        ensures
            old(self)@.len() <= 1 ==> r is None && *final(self) == *old(self),
            old(self)@.len() > 1 ==> (r matches Some(t) && t@ =~= old(self)@.skip(1)
                && final(self)@ =~= old(self)@.take(1)),
    {
        if self.components.len() == 0 || self.components.len() == 1 {
            return None;
        }
        let rest = self.components.split_off(1);
        Some(JsonPath { components: rest })
    }

    /// Concatenate another path onto the end of this one.  The right-hand
    /// path must be partial: gluing a rooted path onto the end of another
    /// path never produces a meaningful path.
    pub fn concat(self, rhs: JsonPath) -> (r: JsonPath)
        requires
            spec_is_partial(rhs@),
        ensures
            r@ =~= self@ + rhs@,
    {
        let mut a = self;
        let mut b = rhs;
        a.components.append(&mut b.components);
        a
    }
}

} // verus!
