//! A representation of a JSON Pointer with associated operations, as per
//! RFC 6901.
//!
//! A pointer is an ordered sequence of name and index segments.  The first
//! push onto an empty pointer prepends a root sentinel, so that a non-empty
//! pointer always serializes with a leading `/`.  On serialization, names
//! encode `~` as `~0` and `/` as `~1`, and any literal `"` is stripped.
use crate::text::{push_char, spec_udec, usize_to_string};
use vstd::prelude::*;

verus! {

/// Each pointer is made of one of three different component types.
#[derive(Debug, Clone, PartialEq)]
pub enum JsonPointerComponent {
    /// Root element of a pointer
    Root,
    /// A named element within a pointer
    Name(String),
    /// An indexed element within a pointer
    Index(usize),
}

/// The mathematical image of a single pointer component: a name is a
/// sequence of scalars, an index a number.
pub enum SegModel {
    /// Root sentinel
    Root,
    /// Name segment
    Name(Seq<char>),
    /// Index segment
    Index(int),
}

/// The abstraction of an executable pointer component.
pub open spec fn seg_model(c: JsonPointerComponent) -> SegModel {
    match c {
        JsonPointerComponent::Root => SegModel::Root,
        JsonPointerComponent::Name(s) => SegModel::Name(s@),
        JsonPointerComponent::Index(i) => SegModel::Index(i as int),
    }
}

/// The RFC 6901 encoding of a single scalar of a name segment.
pub open spec fn encode_name_char(c: char) -> Seq<char> {
    if c == '~' {
        seq!['~', '0']
    } else if c == '/' {
        seq!['~', '1']
    } else if c == '"' {
        Seq::<char>::empty()
    } else {
        seq![c]
    }
}

/// The RFC 6901 encoding of a whole name segment.
pub open spec fn spec_encode_name(s: Seq<char>) -> Seq<char>
    decreases s.len(),
{
    if s.len() == 0 {
        Seq::<char>::empty()
    } else {
        spec_encode_name(s.drop_last()) + encode_name_char(s.last())
    }
}

/// The serialization of a single pointer segment: the root sentinel renders
/// as the empty segment, names are encoded, indices render in decimal.
pub open spec fn spec_render_seg(s: SegModel) -> Seq<char> {
    match s {
        SegModel::Root => Seq::<char>::empty(),
        SegModel::Name(n) => spec_encode_name(n),
        SegModel::Index(i) => spec_udec(i),
    }
}

/// The serialization of a whole pointer: its segments joined by `/`.  The
/// empty pointer serializes to the empty string; a non-empty pointer starts
/// with its root sentinel and so gains a leading `/`.
pub open spec fn spec_render_pointer(cs: Seq<SegModel>) -> Seq<char>
    decreases cs.len(),
{
    if cs.len() == 0 {
        Seq::<char>::empty()
    } else if cs.len() == 1 {
        spec_render_seg(cs.last())
    } else {
        spec_render_pointer(cs.drop_last()) + seq!['/'] + spec_render_seg(cs.last())
    }
}

/// A structure representing a complete pointer, comprising multiple
/// [`JsonPointerComponent`]s.
#[derive(Debug)]
pub struct JsonPointer {
    /// The components that go together to make up the pointer
    components: Vec<JsonPointerComponent>,
}

impl View for JsonPointer {
    type V = Seq<SegModel>;

    closed spec fn view(&self) -> Seq<SegModel> {
        self.components@.map(|i: int, c: JsonPointerComponent| seg_model(c))
    }
}

/// Append the RFC 6901 encoding of a name onto the end of a string.
fn append_encoded_name(r: &mut String, name: &str)
    ensures
        final(r)@ == old(r)@ + spec_encode_name(name@),
{
    let n = name.unicode_len();
    let mut i: usize = 0;
    while i < n
        invariant
            i <= n,
            n == name@.len(),
            r@ == old(r)@ + spec_encode_name(name@.take(i as int)),
        decreases n - i,
    {
        let c = name.get_char(i);
        if c == '~' {
            push_char(r, '~');
            push_char(r, '0');
        } else if c == '/' {
            push_char(r, '~');
            push_char(r, '1');
        } else if c == '"' {
        } else {
            push_char(r, c);
        }
        i = i + 1;
        proof {
            assert(name@.take(i as int).drop_last() =~= name@.take(i - 1));
            assert(name@.take(i as int).last() == name@[i - 1]);
            assert(r@ =~= old(r)@ + spec_encode_name(name@.take(i as int)));
        }
    }
    proof {
        assert(name@.take(n as int) =~= name@);
    }
}

impl Default for JsonPointer {
    /// A new pointer starts out empty.
    fn default() -> (r: JsonPointer)
        ensures
            r@ == Seq::<SegModel>::empty(),
    {
        let r = JsonPointer { components: Vec::new() };
        proof {
            assert(r@ =~= Seq::<SegModel>::empty());
        }
        r
    }
}

impl JsonPointer {
    /// Returns the number of [`JsonPointerComponent`]s within the pointer.
    pub fn len(&self) -> (r: usize)
        ensures
            r == self@.len(),
    {
        self.components.len()
    }

    /// Checks whether the pointer is the empty pointer.
    pub fn is_empty(&self) -> (r: bool)
        ensures
            r == (self@.len() == 0),
    {
        self.components.len() == 0
    }

    /// Push a new [`JsonPointerComponent::Name`] onto the end of the
    /// pointer; the first push onto an empty pointer prepends the root
    /// sentinel.
    pub fn push_name(&mut self, name: String)
        ensures
            old(self)@.len() == 0 ==> final(self)@ =~= seq![
                SegModel::Root,
                SegModel::Name(name@),
            ],
            old(self)@.len() > 0 ==> final(self)@ =~= old(self)@.push(SegModel::Name(name@)),
    {
        if self.components.len() == 0 {
            self.components.push(JsonPointerComponent::Root);
        }
        self.components.push(JsonPointerComponent::Name(name));
    }

    /// Push a new [`JsonPointerComponent::Index`] onto the end of the
    /// pointer; the first push onto an empty pointer prepends the root
    /// sentinel.
    pub fn push_index(&mut self, index: usize)
        ensures
            old(self)@.len() == 0 ==> final(self)@ =~= seq![
                SegModel::Root,
                SegModel::Index(index as int),
            ],
            old(self)@.len() > 0 ==> final(self)@ =~= old(self)@.push(
                SegModel::Index(index as int),
            ),
    {
        if self.components.len() == 0 {
            self.components.push(JsonPointerComponent::Root);
        }
        self.components.push(JsonPointerComponent::Index(index));
    }

    /// Push a whole bunch of names onto the end of the pointer in order.
    #[verifier::loop_isolation(false)]
    pub fn push_names(&mut self, names: &[&str])
        ensures
            names@.len() == 0 ==> *final(self) == *old(self),
            names@.len() > 0 && old(self)@.len() == 0 ==> final(self)@ =~= seq![SegModel::Root]
                + names@.map(|i: int, n: &str| SegModel::Name(n@)),
            names@.len() > 0 && old(self)@.len() > 0 ==> final(self)@ =~= old(self)@ + names@.map(
                |i: int, n: &str| SegModel::Name(n@),
            ),
    {
        let ghost base: Seq<SegModel> = if old(self)@.len() == 0 && names@.len() > 0 {
            seq![SegModel::Root]
        } else {
            old(self)@
        };
        let mut i: usize = 0;
        while i < names.len()
            invariant
                i <= names@.len(),
                i == 0 ==> *self == *old(self),
                i > 0 ==> self@ =~= base + names@.take(i as int).map(
                    |k: int, n: &str| SegModel::Name(n@),
                ),
            decreases names@.len() - i,
        {
            let name: &str = names[i];
            let ghost pre = self@;
            let ghost idx = i as int;
            self.push_name(name.to_owned());
            i = i + 1;
            proof {
                if idx == 0 {
                    assert(pre == old(self)@);
                } else {
                    assert(pre =~= base + names@.take(idx).map(
                        |k: int, n: &str| SegModel::Name(n@),
                    ));
                }
                if pre.len() == 0 {
                    assert(base =~= seq![SegModel::Root]);
                    assert(self@ =~= seq![SegModel::Root, SegModel::Name(names@[idx]@)]);
                } else {
                    assert(pre =~= base + names@.take(idx).map(
                        |k: int, n: &str| SegModel::Name(n@),
                    ));
                    assert(self@ =~= pre.push(SegModel::Name(names@[idx]@)));
                }
                assert(self@ =~= base + names@.take(idx + 1).map(
                    |k: int, n: &str| SegModel::Name(n@),
                ));
            }
        }
        proof {
            assert(names@.take(names@.len() as int) =~= names@);
            if names@.len() > 0 {
                assert(final(self)@ =~= base + names@.map(|k: int, n: &str| SegModel::Name(n@)));
            }
        }
    }

    /// Push a whole bunch of indexes onto the end of the pointer in order.
    #[verifier::loop_isolation(false)]
    pub fn push_indexes(&mut self, indexes: &[usize])
        ensures
            indexes@.len() == 0 ==> *final(self) == *old(self),
            indexes@.len() > 0 && old(self)@.len() == 0 ==> final(self)@ =~= seq![SegModel::Root]
                + indexes@.map(|i: int, n: usize| SegModel::Index(n as int)),
            indexes@.len() > 0 && old(self)@.len() > 0 ==> final(self)@ =~= old(self)@
                + indexes@.map(|i: int, n: usize| SegModel::Index(n as int)),
    {
        let ghost base: Seq<SegModel> = if old(self)@.len() == 0 && indexes@.len() > 0 {
            seq![SegModel::Root]
        } else {
            old(self)@
        };
        let mut i: usize = 0;
        while i < indexes.len()
            invariant
                i <= indexes@.len(),
                i == 0 ==> *self == *old(self),
                i > 0 ==> self@ =~= base + indexes@.take(i as int).map(
                    |k: int, n: usize| SegModel::Index(n as int),
                ),
            decreases indexes@.len() - i,
        {
            let index: usize = indexes[i];
            let ghost pre = self@;
            let ghost idx = i as int;
            self.push_index(index);
            i = i + 1;
            proof {
                if idx == 0 {
                    assert(pre == old(self)@);
                } else {
                    assert(pre =~= base + indexes@.take(idx).map(
                        |k: int, n: usize| SegModel::Index(n as int),
                    ));
                }
                if pre.len() == 0 {
                    assert(base =~= seq![SegModel::Root]);
                    assert(self@ =~= seq![SegModel::Root, SegModel::Index(indexes@[idx] as int)]);
                } else {
                    assert(pre =~= base + indexes@.take(idx).map(
                        |k: int, n: usize| SegModel::Index(n as int),
                    ));
                    assert(self@ =~= pre.push(SegModel::Index(indexes@[idx] as int)));
                }
                assert(self@ =~= base + indexes@.take(idx + 1).map(
                    |k: int, n: usize| SegModel::Index(n as int),
                ));
            }
        }
        proof {
            assert(indexes@.take(indexes@.len() as int) =~= indexes@);
            if indexes@.len() > 0 {
                assert(final(self)@ =~= base + indexes@.map(
                    |k: int, n: usize| SegModel::Index(n as int),
                ));
            }
        }
    }

    /// Pop the last component off the back of the pointer.
    pub fn pop(&mut self) -> (r: Option<JsonPointerComponent>)
        ensures
            old(self)@.len() == 0 ==> r is None && *final(self) == *old(self),
            old(self)@.len() > 0 ==> (r matches Some(c) && seg_model(c) == old(self)@.last()
                && final(self)@ =~= old(self)@.drop_last()),
    {
        if self.components.len() == 0 {
            None
        } else {
            let c = self.components.pop().unwrap();
            Some(c)
        }
    }

    /// Checks whether a pointer matches another pointer: the two serialize
    /// to the same string.
    pub fn matches(&self, rhs: &JsonPointer) -> (r: bool)
        ensures
            r == (spec_render_pointer(self@) == spec_render_pointer(rhs@)),
    {
        let a = self.as_str();
        let b = rhs.as_str();
        a == b
    }

    /// Serialise the pointer into a string representation that is compliant
    /// with RFC 6901.
    pub fn as_str(&self) -> (r: String)
        ensures
            r@ == spec_render_pointer(self@),
    {
        let mut r = String::new();
        let mut i: usize = 0;
        while i < self.components.len()
            invariant
                i <= self.components@.len(),
                self@.len() == self.components@.len(),
                r@ == spec_render_pointer(self@.take(i as int)),
            decreases self.components@.len() - i,
        {
            if i > 0 {
                push_char(&mut r, '/');
            }
            match &self.components[i] {
                JsonPointerComponent::Root => {},
                JsonPointerComponent::Name(name) => {
                    append_encoded_name(&mut r, name.as_str());
                },
                JsonPointerComponent::Index(index) => {
                    let d = usize_to_string(*index);
                    r.append(d.as_str());
                },
            }
            i = i + 1;
            proof {
                assert(self@.take(i as int).drop_last() =~= self@.take(i - 1));
                assert(self@.take(i as int).last() == self@[i - 1]);
                assert(r@ =~= spec_render_pointer(self@.take(i as int)));
            }
        }
        proof {
            assert(self@.take(self@.len() as int) =~= self@);
        }
        r
    }
}

} // verus!
