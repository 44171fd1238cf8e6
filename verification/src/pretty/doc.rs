//! The concrete document type together with its mathematical model.
//!
//! A document is a tree of layout primitives.  The ghost type [`DocV`] is
//! the pointer-free model that all contracts are stated over: it erases
//! how children are stored (boxes or arena references) and the values of
//! annotations, neither of which influences layout.

use vstd::prelude::*;

verus! {

use vstd::string::StrSliceExecFns;

use crate::pretty::layout;

/// The pointer-free mathematical model of a document.
///
/// Annotations are carried by the concrete trees but never influence
/// layout, so the model keeps only the tree shape beneath them.
pub enum DocV {
    Nil,
    Append(Box<DocV>, Box<DocV>),
    Group(Box<DocV>),
    Nest(nat, Box<DocV>),
    Block(nat, Box<DocV>),
    Space,
    Newline,
    Text(Seq<char>),
    Annotated(Box<DocV>),
    Union(Box<DocV>, Box<DocV>),
}

/// The number of nodes of a model tree; used as a termination measure.
pub open spec fn dv_size(d: DocV) -> nat
    decreases d,
{
    match d {
        DocV::Nil => 1,
        DocV::Append(l, r) => 1 + dv_size(*l) + dv_size(*r),
        DocV::Group(x) => 1 + dv_size(*x),
        DocV::Nest(_k, x) => 1 + dv_size(*x),
        DocV::Block(_k, x) => 1 + dv_size(*x),
        DocV::Space => 1,
        DocV::Newline => 1,
        DocV::Text(_s) => 1,
        DocV::Annotated(x) => 1 + dv_size(*x),
        DocV::Union(x, y) => 1 + dv_size(*x) + dv_size(*y),
    }
}

/// Concatenation with its two peephole simplifications: `Nil` is a
/// two-sided identity and never allocates an `Append` node.
pub open spec fn spec_append(l: DocV, r: DocV) -> DocV {
    if l is Nil {
        r
    } else if r is Nil {
        l
    } else {
        DocV::Append(Box::new(l), Box::new(r))
    }
}

/// A text fragment may not contain line breaks.
pub open spec fn text_valid(s: Seq<char>) -> bool {
    forall|i: int| 0 <= i < s.len() ==> s[i] != '\n' && s[i] != '\r'
}

/// Every text fragment of the document is free of line breaks.
pub open spec fn doc_valid(d: DocV) -> bool
    decreases d,
{
    match d {
        DocV::Nil => true,
        DocV::Append(l, r) => doc_valid(*l) && doc_valid(*r),
        DocV::Group(x) => doc_valid(*x),
        DocV::Nest(_k, x) => doc_valid(*x),
        DocV::Block(_k, x) => doc_valid(*x),
        DocV::Space => true,
        DocV::Newline => true,
        DocV::Text(s) => text_valid(s),
        DocV::Annotated(x) => doc_valid(*x),
        DocV::Union(x, y) => doc_valid(*x) && doc_valid(*y),
    }
}

/// The concrete document type for heap-per-node storage. This type is not
/// meant to be matched on directly by callers; use the static functions
/// on `Doc` or the methods on a `DocAllocator` to build one, and `render`
/// or `pretty` to lay it out.
#[derive(Debug, PartialEq, Eq)]
pub enum Doc<A> {
    Nil,
    Append(BoxDoc<A>, BoxDoc<A>),
    Group(BoxDoc<A>),
    Nest(usize, BoxDoc<A>),
    Block(usize, BoxDoc<A>),
    Space,
    Newline,
    Text(String),
    Annotated(A, BoxDoc<A>),
    Union(BoxDoc<A>, BoxDoc<A>),
}

/// A document pointer that exclusively owns its node on the heap.
#[derive(Debug, PartialEq, Eq)]
pub struct BoxDoc<A>(Box<Doc<A>>);

/// The model of a heap-backed document tree.
pub open spec fn doc_view<A>(d: Doc<A>) -> DocV
    decreases d,
{
    match d {
        Doc::Nil => DocV::Nil,
        Doc::Append(l, r) => DocV::Append(Box::new(box_doc_view(l)), Box::new(box_doc_view(r))),
        Doc::Group(x) => DocV::Group(Box::new(box_doc_view(x))),
        Doc::Nest(k, x) => DocV::Nest(k as nat, Box::new(box_doc_view(x))),
        Doc::Block(k, x) => DocV::Block(k as nat, Box::new(box_doc_view(x))),
        Doc::Space => DocV::Space,
        Doc::Newline => DocV::Newline,
        Doc::Text(s) => DocV::Text(s@),
        Doc::Annotated(_a, x) => DocV::Annotated(Box::new(box_doc_view(x))),
        Doc::Union(x, y) => DocV::Union(Box::new(box_doc_view(x)), Box::new(box_doc_view(y))),
    }
}

/// The model of a heap-allocated document handle.
pub closed spec fn box_doc_view<A>(b: BoxDoc<A>) -> DocV
    decreases b,
{
    doc_view(*b.0)
}

impl<A> View for Doc<A> {
    type V = DocV;

    open spec fn view(&self) -> DocV {
        doc_view(*self)
    }
}

impl<A> View for BoxDoc<A> {
    type V = DocV;

    open spec fn view(&self) -> DocV {
        box_doc_view(*self)
    }
}

/// A borrowed, one-level-deep look at a document node.  The renderer
/// traverses a tree exclusively through values of this type, so that it
/// is independent of how a given allocator stores children.
pub enum DocRef<'a, B> {
    Nil,
    Append(&'a B, &'a B),
    Group(&'a B),
    Nest(usize, &'a B),
    Block(usize, &'a B),
    Space,
    Newline,
    Text(&'a String),
    Annotated(&'a B),
    Union(&'a B, &'a B),
}

/// The model of a borrowed node, one level deep: children are taken to
/// their own views.
pub open spec fn ref_view<B: View<V = DocV>>(r: DocRef<B>) -> DocV {
    match r {
        DocRef::Nil => DocV::Nil,
        DocRef::Append(l, x) => DocV::Append(Box::new((*l)@), Box::new((*x)@)),
        DocRef::Group(x) => DocV::Group(Box::new((*x)@)),
        DocRef::Nest(k, x) => DocV::Nest(k as nat, Box::new((*x)@)),
        DocRef::Block(k, x) => DocV::Block(k as nat, Box::new((*x)@)),
        DocRef::Space => DocV::Space,
        DocRef::Newline => DocV::Newline,
        DocRef::Text(s) => DocV::Text((*s)@),
        DocRef::Annotated(x) => DocV::Annotated(Box::new((*x)@)),
        DocRef::Union(x, y) => DocV::Union(Box::new((*x)@), Box::new((*y)@)),
    }
}

/// Rebuild a borrowed node from a reference to it; references themselves
/// are freely duplicable.
pub fn copy_ref<'a, B: View<V = DocV>>(r: &DocRef<'a, B>) -> (c: DocRef<'a, B>)
    ensures
        c == *r,
{
    match r {
        DocRef::Nil => DocRef::Nil,
        DocRef::Append(l, x) => DocRef::Append(*l, *x),
        DocRef::Group(x) => DocRef::Group(*x),
        DocRef::Nest(k, x) => DocRef::Nest(*k, *x),
        DocRef::Block(k, x) => DocRef::Block(*k, *x),
        DocRef::Space => DocRef::Space,
        DocRef::Newline => DocRef::Newline,
        DocRef::Text(s) => DocRef::Text(*s),
        DocRef::Annotated(x) => DocRef::Annotated(*x),
        DocRef::Union(x, y) => DocRef::Union(*x, *y),
    }
}

/// A pointer to a document node: it can be viewed as a model tree and
/// opened to the node it designates.
pub trait DocPtr: View<V = DocV> + Sized {
    /// Open the pointer to a one-level view of its node.
    fn open_node(&self) -> (r: DocRef<'_, Self>)
        ensures
            ref_view(r) == self@,
    ;
}

impl<A> DocPtr for BoxDoc<A> {
    fn open_node(&self) -> (r: DocRef<'_, BoxDoc<A>>)
        ensures
            ref_view(r) == self@,
    {
        match &*self.0 {
            Doc::Nil => DocRef::Nil,
            Doc::Append(l, x) => DocRef::Append(l, x),
            Doc::Group(x) => DocRef::Group(x),
            Doc::Nest(k, x) => DocRef::Nest(*k, x),
            Doc::Block(k, x) => DocRef::Block(*k, x),
            Doc::Space => DocRef::Space,
            Doc::Newline => DocRef::Newline,
            Doc::Text(s) => DocRef::Text(s),
            Doc::Annotated(_a, x) => DocRef::Annotated(x),
            Doc::Union(x, y) => DocRef::Union(x, y),
        }
    }
}

impl<A> BoxDoc<A> {
    /// Move a node to the heap and hand back the owning pointer.
    pub fn new(doc: Doc<A>) -> (r: BoxDoc<A>)
        ensures
            r@ == doc@,
    {
        BoxDoc(Box::new(doc))
    }
}

impl<A> Doc<A> {
    /// Open the root node to a one-level view, for the renderer.
    pub fn open_node(&self) -> (r: DocRef<'_, BoxDoc<A>>)
        ensures
            ref_view(r) == (*self)@,
    {
        match self {
            Doc::Nil => DocRef::Nil,
            Doc::Append(l, x) => DocRef::Append(l, x),
            Doc::Group(x) => DocRef::Group(x),
            Doc::Nest(k, x) => DocRef::Nest(*k, x),
            Doc::Block(k, x) => DocRef::Block(*k, x),
            Doc::Space => DocRef::Space,
            Doc::Newline => DocRef::Newline,
            Doc::Text(s) => DocRef::Text(s),
            Doc::Annotated(_a, x) => DocRef::Annotated(x),
            Doc::Union(x, y) => DocRef::Union(x, y),
        }
    }

    /// An empty document.
    pub fn nil() -> (r: Doc<A>)
        ensures
            r@ == DocV::Nil,
    {
        Doc::Nil
    }

    /// The given text, which must not contain line breaks.
    pub fn text(data: &str) -> (r: Doc<A>)
        requires
            text_valid(data@),
        ensures
            r@ == DocV::Text(data@),
    {
        Doc::Text(data.to_owned())
    }

    /// A single newline: a hard break that is rendered as a line feed
    /// followed by the current indent, whatever the layout mode.
    pub fn newline() -> (r: Doc<A>)
        ensures
            r@ == DocV::Newline,
    {
        Doc::Newline
    }

    /// A space: a soft separator that is rendered as one space in flat
    /// mode and as a line break in break mode.
    pub fn space() -> (r: Doc<A>)
        ensures
            r@ == DocV::Space,
    {
        Doc::Space
    }

    /// Append the given document after this document.
    pub fn append(self, that: Doc<A>) -> (r: Doc<A>)
        ensures
            r@ == spec_append(self@, that@),
    {
        match (self, that) {
            (Doc::Nil, that) => that,
            (this, Doc::Nil) => this,
            (this, that) => Doc::Append(BoxDoc::new(this), BoxDoc::new(that)),
        }
    }

    /// Mark this document as a group.
    ///
    /// A group is laid out on a single line if it fits on the remaining
    /// width; otherwise every soft separator in it (outside nested
    /// groups) becomes a line break.
    pub fn group(self) -> (r: Doc<A>)
        ensures
            r@ == DocV::Group(Box::new(self@)),
    {
        Doc::Group(BoxDoc::new(self))
    }

    /// Increase the indentation level of this document.
    pub fn nest(self, offset: usize) -> (r: Doc<A>)
        ensures
            r@ == if offset == 0 {
                self@
            } else {
                DocV::Nest(offset as nat, Box::new(self@))
            },
    {
        if offset == 0 {
            return self;
        }
        Doc::Nest(offset, BoxDoc::new(self))
    }

    /// Attach a caller-defined annotation; it is carried through the tree
    /// and ignored by the layout algorithm.
    pub fn annotate(self, ann: A) -> (r: Doc<A>)
        ensures
            r@ == DocV::Annotated(Box::new(self@)),
            r matches Doc::Annotated(a, d) && a == ann && d@ == self@,
    {
        Doc::Annotated(ann, BoxDoc::new(self))
    }

    /// The text `t.to_string()`.
    ///
    /// The value's display form must not contain line breaks.
    pub fn as_string<T: core::fmt::Display>(t: T) -> (r: Doc<A>)
        ensures
            r matches Doc::Text(s) && vstd::string::to_string_from_display_ensures(&t, s) && r@
                == DocV::Text(s@),
    {
        Doc::Text(t.to_string())
    }

    /// A single document concatenating all the given documents.
    pub fn concat(docs: Vec<Doc<A>>) -> (r: Doc<A>)
        ensures
            r@ == concat_view(docs_view(docs@)),
    {
        let ghost orig = docs@;
        let mut docs = docs;
        let total = docs.len();
        let mut result = Doc::nil();
        let mut done: usize = 0;
        proof {
            assert(orig.skip(0) =~= orig);
            assert(docs_view(orig.take(0)) =~= Seq::<DocV>::empty());
        }
        while docs.len() != 0
            invariant
                done <= total,
                total == orig.len(),
                docs@ == orig.skip(done as int),
                result@ == concat_view(docs_view(orig.take(done as int))),
            decreases docs@.len(),
        {
            let d = docs.remove(0);
            proof {
                assert(orig.skip(done as int)[0] == orig[done as int]);
                assert(orig.skip(done as int).remove(0) =~= orig.skip(done + 1));
                let ghost t1 = orig.take(done + 1);
                assert(docs_view(t1).drop_last() =~= docs_view(orig.take(done as int)));
                assert(docs_view(t1).last() == orig[done as int]@);
            }
            result = result.append(d);
            done = done + 1;
        }
        proof {
            assert(orig.take(orig.len() as int) =~= orig);
        }
        result
    }
}

/// The models of a sequence of documents.
pub open spec fn docs_view<A>(s: Seq<Doc<A>>) -> Seq<DocV> {
    Seq::new(s.len(), |i: int| s[i]@)
}

/// The left fold of a sequence of documents under `spec_append`, starting
/// from the empty document.
pub open spec fn concat_view(ds: Seq<DocV>) -> DocV
    decreases ds.len(),
{
    if ds.len() == 0 {
        DocV::Nil
    } else {
        spec_append(concat_view(ds.drop_last()), ds.last())
    }
}

/// The documents `[d0, d1, ..., dn]` joined as
/// `d0 · sep · d1 · sep · ... · sep · dn`: no leading or trailing
/// separator, and none at all around fewer than two documents.
pub open spec fn intersperse_view(ds: Seq<DocV>, sep: DocV) -> DocV
    decreases ds.len(),
{
    if ds.len() == 0 {
        DocV::Nil
    } else if ds.len() == 1 {
        ds[0]
    } else {
        spec_append(spec_append(intersperse_view(ds.drop_last(), sep), sep), ds.last())
    }
}

impl<A: Clone> BoxDoc<A> {
    /// A deep copy of the pointed-to tree; the layout model is preserved
    /// exactly, whatever the annotations' `Clone` does.
    pub fn duplicate(&self) -> (r: BoxDoc<A>)
        ensures
            r@ == (*self)@,
        decreases dv_size((*self)@), 1int,
    {
        proof {
            assert(dv_size((*self)@) == dv_size((*self.0)@));
        }
        BoxDoc::new((*self.0).duplicate())
    }
}

impl<A: Clone> Doc<A> {
    /// A deep copy of the tree; the layout model is preserved exactly,
    /// whatever the annotations' `Clone` does.
    pub fn duplicate(&self) -> (r: Doc<A>)
        ensures
            r@ == (*self)@,
        decreases dv_size((*self)@), 0int,
    {
        match self {
            Doc::Nil => Doc::Nil,
            Doc::Append(l, x) => Doc::Append(l.duplicate(), x.duplicate()),
            Doc::Group(x) => Doc::Group(x.duplicate()),
            Doc::Nest(k, x) => Doc::Nest(*k, x.duplicate()),
            Doc::Block(k, x) => Doc::Block(*k, x.duplicate()),
            Doc::Space => Doc::Space,
            Doc::Newline => Doc::Newline,
            Doc::Text(s) => Doc::Text(s.clone()),
            Doc::Annotated(a, x) => Doc::Annotated(a.clone(), x.duplicate()),
            Doc::Union(x, y) => Doc::Union(x.duplicate(), y.duplicate()),
        }
    }

    /// A single document interspersing the given separator between the
    /// given documents.  For example, if the documents are
    /// `[A, B, C, ..., Z]`, this yields `[A, S, B, S, C, S, ..., S, Z]`.
    pub fn intersperse(docs: Vec<Doc<A>>, separator: Doc<A>) -> (r: Doc<A>)
        ensures
            r@ == intersperse_view(docs_view(docs@), separator@),
    {
        let ghost orig = docs@;
        let mut docs = docs;
        let total = docs.len();
        let mut result = Doc::nil();
        let mut done: usize = 0;
        proof {
            assert(orig.skip(0) =~= orig);
        }
        while docs.len() != 0
            invariant
                done <= total,
                total == orig.len(),
                docs@ == orig.skip(done as int),
                result@ == intersperse_view(docs_view(orig.take(done as int)), separator@),
            decreases docs@.len(),
        {
            let d = docs.remove(0);
            proof {
                assert(orig.skip(done as int)[0] == orig[done as int]);
                assert(orig.skip(done as int).remove(0) =~= orig.skip(done + 1));
                let ghost t1 = orig.take(done + 1);
                assert(docs_view(t1).drop_last() =~= docs_view(orig.take(done as int)));
                assert(docs_view(t1).last() == orig[done as int]@);
                assert(docs_view(t1).len() == done + 1);
            }
            if done == 0 {
                result = result.append(d);
            } else {
                result = result.append(separator.duplicate());
                result = result.append(d);
            }
            done = done + 1;
        }
        proof {
            assert(orig.take(orig.len() as int) =~= orig);
        }
        result
    }
}

#[verifier::external_type_specification]
#[verifier::external_body]
pub struct ExIoError(std::io::Error);

#[verifier::external_type_specification]
#[verifier::external_body]
pub struct ExFmtError(core::fmt::Error);

/// Relies on `std::io::Write::write_all`: it writes the whole byte slice
/// to the sink, or returns the first error the sink reported.  Nothing
/// about the opaque sink can be stated here; what is written is pinned by
/// the contract of `best`, which produced the text.
#[verifier::external_body]
fn write_all_bytes<W: ?Sized + std::io::Write>(out: &mut W, s: &str) -> (r: Result<
    (),
    std::io::Error,
>) {
    out.write_all(s.as_bytes())
}

/// Relies on `core::fmt::Write::write_str`: it writes the string to the
/// sink, or returns the sink's formatting error.
#[verifier::external_body]
pub(crate) fn write_str_all<W: ?Sized + core::fmt::Write>(out: &mut W, s: &str) -> (r: Result<
    (),
    core::fmt::Error,
>) {
    out.write_str(s)
}

/// A document paired with a width, ready to be laid out into a string.
pub struct Pretty<'a, A> {
    pub doc: &'a Doc<A>,
    pub width: usize,
}

impl<'a, A> Pretty<'a, A> {
    /// The rendered text of the document against the stored width.
    pub fn to_string(&self) -> (r: String)
        requires
            self.width + layout::weight((*self.doc)@) <= usize::MAX,
        ensures
            r@ == layout::rendered((*self.doc)@, self.width as nat),
    {
        let mut buf = String::new();
        layout::best(self.doc.open_node(), self.width, &mut buf);
        buf
    }
}

impl<A> Doc<A> {
    /// Writes a rendered document to a `std::io::Write` object.  The text
    /// handed to the sink is `rendered` of this document; the sink's
    /// verdict is returned verbatim.
    pub fn render<W: ?Sized + std::io::Write>(&self, width: usize, out: &mut W) -> (r: Result<
        (),
        std::io::Error,
    >)
        requires
            width + layout::weight((*self)@) <= usize::MAX,
    {
        let mut buf = String::new();
        layout::best(self.open_node(), width, &mut buf);
        write_all_bytes(out, buf.as_str())
    }

    /// Writes a rendered document to a `core::fmt::Write` object.  The
    /// text handed to the sink is `rendered` of this document; the
    /// sink's verdict is returned verbatim.
    pub fn render_fmt<W: ?Sized + core::fmt::Write>(&self, width: usize, out: &mut W) -> (r: Result<
        (),
        core::fmt::Error,
    >)
        requires
            width + layout::weight((*self)@) <= usize::MAX,
    {
        let mut buf = String::new();
        layout::best(self.open_node(), width, &mut buf);
        write_str_all(out, buf.as_str())
    }

    /// Returns a handle that lays the document out against the given
    /// width when asked for its string.
    pub fn pretty<'b>(&'b self, width: usize) -> (r: Pretty<'b, A>)
        ensures
            r.doc == self,
            r.width == width,
    {
        Pretty { doc: self, width }
    }

    /// The weight of this document, if it fits in a machine word: the
    /// measure that the rendering entry points bound against the width.
    pub fn try_weight(&self) -> (r: Option<usize>)
        ensures
            r matches Some(n) ==> n == layout::weight((*self)@),
            r is None ==> layout::weight((*self)@) > usize::MAX,
        decreases dv_size((*self)@), 0int,
    {
        match self {
            Doc::Nil => Some(1),
            Doc::Space => Some(1),
            Doc::Newline => Some(1),
            Doc::Text(s) => {
                proof {
                    assert(layout::weight((*self)@) == 1 + 4 * (*s)@.len());
                }
                let chars = s.as_str().unicode_len();
                match chars.checked_mul(4) {
                    Some(m) => m.checked_add(1),
                    None => None,
                }
            },
            Doc::Append(l, x) => {
                proof {
                    assert(layout::weight((*self)@) == 1 + layout::weight((*l)@)
                        + layout::weight((*x)@));
                }
                match (l.try_weight(), x.try_weight()) {
                    (Some(a), Some(b)) => match a.checked_add(b) {
                        Some(ab) => ab.checked_add(1),
                        None => None,
                    },
                    _ => None,
                }
            },
            Doc::Group(x) => {
                proof {
                    assert(layout::weight((*self)@) == 1 + layout::weight((*x)@));
                }
                match x.try_weight() {
                    Some(a) => a.checked_add(1),
                    None => None,
                }
            },
            Doc::Nest(k, x) => {
                proof {
                    assert(layout::weight((*self)@) == 1 + *k + layout::weight((*x)@));
                }
                match x.try_weight() {
                    Some(a) => match a.checked_add(*k) {
                        Some(ak) => ak.checked_add(1),
                        None => None,
                    },
                    None => None,
                }
            },
            Doc::Block(k, x) => {
                proof {
                    assert(layout::weight((*self)@) == 1 + *k + layout::weight((*x)@));
                }
                match x.try_weight() {
                    Some(a) => match a.checked_add(*k) {
                        Some(ak) => ak.checked_add(1),
                        None => None,
                    },
                    None => None,
                }
            },
            Doc::Annotated(_a, x) => {
                proof {
                    assert(layout::weight((*self)@) == 1 + layout::weight((*x)@));
                }
                match x.try_weight() {
                    Some(a) => a.checked_add(1),
                    None => None,
                }
            },
            Doc::Union(x, y) => {
                proof {
                    assert(layout::weight((*self)@) == 1 + layout::weight((*x)@)
                        + layout::weight((*y)@));
                }
                match (x.try_weight(), y.try_weight()) {
                    (Some(a), Some(b)) => match a.checked_add(b) {
                        Some(ab) => ab.checked_add(1),
                        None => None,
                    },
                    _ => None,
                }
            },
        }
    }
}

impl<A> BoxDoc<A> {
    /// The weight of the pointed-to document, if it fits in a machine
    /// word.
    pub fn try_weight(&self) -> (r: Option<usize>)
        ensures
            r matches Some(n) ==> n == layout::weight((*self)@),
            r is None ==> layout::weight((*self)@) > usize::MAX,
        decreases dv_size((*self)@), 1int,
    {
        proof {
            assert(dv_size((*self)@) == dv_size((*self.0)@));
        }
        (*self.0).try_weight()
    }
}

} // verus!
