//! A Wadler-style pretty-printing library.
//!
//! Documents are built from combinators (`text`, `space`, `newline`,
//! `append`, `group`, `nest`, `annotate`), either through the static
//! functions on [`Doc`] or through a [`DocAllocator`], and are then laid
//! out against a page width by the renderer.
//!
//! Every public operation carries a contract over the mathematical model
//! [`DocV`] of the document tree, and the renderer is proved to produce
//! exactly the layout described by the specification function
//! [`pretty::layout::rendered`].

use vstd::prelude::*;

pub mod pretty;

pub use pretty::doc::BoxDoc;
pub use pretty::doc::Doc;
pub use pretty::doc::DocPtr;
pub use pretty::doc::DocRef;
pub use pretty::doc::DocV;
pub use pretty::doc::Pretty;

verus! {

use crate::pretty::doc::dv_size;
use crate::pretty::doc::concat_view;
use crate::pretty::doc::intersperse_view;
use crate::pretty::doc::ref_view;
use crate::pretty::doc::spec_append;
use crate::pretty::doc::text_valid;

/// The `DocAllocator` trait abstracts over a way to store document nodes:
/// per node on the heap (`BoxAllocator`) or in a bump-allocated arena
/// (`DocArena`).  `Node` is the allocator's node type and `Doc` its handle
/// type; a handle dereferences to the node it was allocated for, with the
/// same model.
pub trait DocAllocator<'a, A>: Sized {
    type Doc: DocPtr;

    type Node: View<V = DocV>;

    /// Allocate a node, yielding a handle with the same model.
    fn allocate(&'a self, node: Self::Node) -> (r: Self::Doc)
        ensures
            r@ == node@,
    ;

    /// The empty node.
    fn nil_node(&'a self) -> (r: Self::Node)
        ensures
            r@ == DocV::Nil,
    ;

    /// A soft-separator node.
    fn space_node(&'a self) -> (r: Self::Node)
        ensures
            r@ == DocV::Space,
    ;

    /// A hard-break node.
    fn newline_node(&'a self) -> (r: Self::Node)
        ensures
            r@ == DocV::Newline,
    ;

    /// A text node holding the given characters.
    fn text_node(&'a self, data: &str) -> (r: Self::Node)
        ensures
            r@ == DocV::Text(data@),
    ;

    /// Concatenation of two nodes, with the `Nil` simplifications: no
    /// allocation happens when either side is empty.
    fn append_nodes(&'a self, l: Self::Node, r: Self::Node) -> (res: Self::Node)
        ensures
            res@ == spec_append(l@, r@),
    ;

    /// A choice point around the given node.
    fn group_node(&'a self, d: Self::Node) -> (r: Self::Node)
        ensures
            r@ == DocV::Group(Box::new(d@)),
    ;

    /// An indentation adjustment around the given node; a zero offset
    /// returns the node unchanged, without allocating.
    fn nest_node(&'a self, offset: usize, d: Self::Node) -> (r: Self::Node)
        ensures
            r@ == if offset == 0 {
                d@
            } else {
                DocV::Nest(offset as nat, Box::new(d@))
            },
    ;

    /// An annotation around the given node.
    fn annotate_node(&'a self, ann: A, d: Self::Node) -> (r: Self::Node)
        ensures
            r@ == DocV::Annotated(Box::new(d@)),
    ;

    /// A deep copy of a node; the layout model is preserved exactly.
    fn clone_node(&'a self, d: &Self::Node) -> (r: Self::Node) where A: Clone
        ensures
            r@ == (*d)@,
    ;

    /// Allocate an empty document.
    fn nil(&'a self) -> (r: DocBuilder<'a, A, Self>)
        ensures
            r.0 == self,
            r.1@ == DocV::Nil,
    ;

    /// Allocate a single space.
    fn space(&'a self) -> (r: DocBuilder<'a, A, Self>)
        ensures
            r.0 == self,
            r.1@ == DocV::Space,
    ;

    /// Allocate a single newline.
    fn newline(&'a self) -> (r: DocBuilder<'a, A, Self>)
        ensures
            r.0 == self,
            r.1@ == DocV::Newline,
    ;

    /// Allocate a document containing the given text.
    ///
    /// The given text must not contain line breaks.
    fn text(&'a self, data: &str) -> (r: DocBuilder<'a, A, Self>)
        requires
            text_valid(data@),
        ensures
            r.0 == self,
            r.1@ == DocV::Text(data@),
    ;

    /// Allocate a document containing the text `t.to_string()`.
    ///
    /// The value's display form must not contain line breaks.
    fn as_string<T: core::fmt::Display>(&'a self, t: T) -> (r: DocBuilder<'a, A, Self>)
        ensures
            r.0 == self,
            exists|s: String|
                vstd::string::to_string_from_display_ensures(&t, s) && r.1@ == DocV::Text(s@),
    ;

    /// Allocate a document concatenating the given documents.
    fn concat(&'a self, docs: Vec<DocBuilder<'a, A, Self>>) -> (r: DocBuilder<'a, A, Self>)
        ensures
            r.0 == self,
            r.1@ == concat_view(Seq::new(docs@.len(), |i: int| docs@[i].1@)),
    ;

    /// Allocate a document that intersperses the given separator between
    /// the given documents `[A, B, C, ..., Z]`, yielding
    /// `[A, S, B, S, C, S, ..., S, Z]`.
    fn intersperse(
        &'a self,
        docs: Vec<DocBuilder<'a, A, Self>>,
        separator: DocBuilder<'a, A, Self>,
    ) -> (r: DocBuilder<'a, A, Self>) where A: Clone
        ensures
            r.0 == self,
            r.1@ == intersperse_view(
                Seq::new(docs@.len(), |i: int| docs@[i].1@),
                separator.1@,
            ),
    ;
}

/// The `DocBuilder` type allows for convenient appending of documents
/// even for arena allocated documents by storing the allocator inline.
pub struct DocBuilder<'a, A, D: DocAllocator<'a, A>>(pub &'a D, pub D::Node);

impl<'a, A, D: DocAllocator<'a, A>> DocBuilder<'a, A, D> {
    /// Append the given document after this document.
    pub fn append(self, that: DocBuilder<'a, A, D>) -> (r: DocBuilder<'a, A, D>)
        ensures
            r.0 == self.0,
            r.1@ == spec_append(self.1@, that.1@),
    {
        let DocBuilder(allocator, this) = self;
        let DocBuilder(_, other) = that;
        DocBuilder(allocator, allocator.append_nodes(this, other))
    }

    /// Mark this document as a group.
    ///
    /// Groups are laid out on a single line if possible.  Within a group,
    /// all basic documents with several possible layouts are assigned the
    /// same layout, that is, they are all laid out horizontally and
    /// combined into one single line, or they are each laid out on their
    /// own line.
    pub fn group(self) -> (r: DocBuilder<'a, A, D>)
        ensures
            r.0 == self.0,
            r.1@ == DocV::Group(Box::new(self.1@)),
    {
        let DocBuilder(allocator, this) = self;
        DocBuilder(allocator, allocator.group_node(this))
    }

    /// Increase the indentation level of this document.
    pub fn nest(self, offset: usize) -> (r: DocBuilder<'a, A, D>)
        ensures
            r.0 == self.0,
            r.1@ == if offset == 0 {
                self.1@
            } else {
                DocV::Nest(offset as nat, Box::new(self.1@))
            },
    {
        let DocBuilder(allocator, this) = self;
        DocBuilder(allocator, allocator.nest_node(offset, this))
    }

    /// Attach an annotation to this document.
    pub fn annotate(self, ann: A) -> (r: DocBuilder<'a, A, D>)
        ensures
            r.0 == self.0,
            r.1@ == DocV::Annotated(Box::new(self.1@)),
    {
        let DocBuilder(allocator, this) = self;
        DocBuilder(allocator, allocator.annotate_node(ann, this))
    }

    /// Finalise the builder into its document node.
    pub fn into_doc(self) -> (r: D::Node)
        ensures
            r@ == self.1@,
    {
        self.1
    }
}


/// An allocator that stores each node on the heap, exclusively owned by
/// its handle.
pub struct BoxAllocator;

impl<'a, A> DocAllocator<'a, A> for BoxAllocator {
    type Doc = BoxDoc<A>;

    type Node = Doc<A>;

    fn allocate(&'a self, node: Doc<A>) -> (r: BoxDoc<A>) {
        BoxDoc::new(node)
    }

    fn nil_node(&'a self) -> (r: Doc<A>) {
        Doc::Nil
    }

    fn space_node(&'a self) -> (r: Doc<A>) {
        Doc::Space
    }

    fn newline_node(&'a self) -> (r: Doc<A>) {
        Doc::Newline
    }

    fn text_node(&'a self, data: &str) -> (r: Doc<A>) {
        Doc::Text(data.to_owned())
    }

    fn append_nodes(&'a self, l: Doc<A>, r: Doc<A>) -> (res: Doc<A>) {
        l.append(r)
    }

    fn group_node(&'a self, d: Doc<A>) -> (r: Doc<A>) {
        d.group()
    }

    fn nest_node(&'a self, offset: usize, d: Doc<A>) -> (r: Doc<A>) {
        d.nest(offset)
    }

    fn annotate_node(&'a self, ann: A, d: Doc<A>) -> (r: Doc<A>) {
        d.annotate(ann)
    }

    fn clone_node(&'a self, d: &Doc<A>) -> (r: Doc<A>) where A: Clone {
        d.duplicate()
    }

    fn nil(&'a self) -> (r: DocBuilder<'a, A, Self>) {
        DocBuilder(self, Doc::Nil)
    }

    fn space(&'a self) -> (r: DocBuilder<'a, A, Self>) {
        DocBuilder(self, Doc::Space)
    }

    fn newline(&'a self) -> (r: DocBuilder<'a, A, Self>) {
        DocBuilder(self, Doc::Newline)
    }

    fn text(&'a self, data: &str) -> (r: DocBuilder<'a, A, Self>) {
        DocBuilder(self, Doc::Text(data.to_owned()))
    }

    fn as_string<T: core::fmt::Display>(&'a self, t: T) -> (r: DocBuilder<'a, A, Self>) {
        let s = t.to_string();
        DocBuilder(self, Doc::Text(s))
    }

    fn concat(&'a self, docs: Vec<DocBuilder<'a, A, Self>>) -> (r: DocBuilder<'a, A, Self>) {
        let ghost orig = docs@;
        let ghost views = Seq::new(orig.len(), |i: int| orig[i].1@);
        let mut docs = docs;
        let total = docs.len();
        let mut node: Doc<A> = Doc::Nil;
        let mut done: usize = 0;
        proof {
            assert(orig.skip(0) =~= orig);
            assert(views.take(0) =~= Seq::<DocV>::empty());
        }
        while docs.len() != 0
            invariant
                done <= total,
                total == orig.len(),
                views == Seq::new(orig.len(), |i: int| orig[i].1@),
                docs@ == orig.skip(done as int),
                node@ == concat_view(views.take(done as int)),
            decreases docs@.len(),
        {
            let d = docs.remove(0);
            proof {
                assert(orig.skip(done as int)[0] == orig[done as int]);
                assert(orig.skip(done as int).remove(0) =~= orig.skip(done + 1));
                assert(views.take(done + 1).drop_last() =~= views.take(done as int));
                assert(views.take(done + 1).last() == orig[done as int].1@);
            }
            node = node.append(d.1);
            done = done + 1;
        }
        proof {
            assert(views.take(orig.len() as int) =~= views);
        }
        DocBuilder(self, node)
    }

    fn intersperse(
        &'a self,
        docs: Vec<DocBuilder<'a, A, Self>>,
        separator: DocBuilder<'a, A, Self>,
    ) -> (r: DocBuilder<'a, A, Self>) where A: Clone {
        let ghost orig = docs@;
        let ghost views = Seq::new(orig.len(), |i: int| orig[i].1@);
        let mut docs = docs;
        let total = docs.len();
        let mut node: Doc<A> = Doc::Nil;
        let mut done: usize = 0;
        proof {
            assert(orig.skip(0) =~= orig);
        }
        while docs.len() != 0
            invariant
                done <= total,
                total == orig.len(),
                views == Seq::new(orig.len(), |i: int| orig[i].1@),
                docs@ == orig.skip(done as int),
                node@ == intersperse_view(views.take(done as int), separator.1@),
            decreases docs@.len(),
        {
            let d = docs.remove(0);
            proof {
                assert(orig.skip(done as int)[0] == orig[done as int]);
                assert(orig.skip(done as int).remove(0) =~= orig.skip(done + 1));
                assert(views.take(done + 1).drop_last() =~= views.take(done as int));
                assert(views.take(done + 1).last() == orig[done as int].1@);
                assert(views.take(done + 1).len() == done + 1);
            }
            if done == 0 {
                node = node.append(d.1);
            } else {
                node = node.append(separator.1.duplicate());
                node = node.append(d.1);
            }
            done = done + 1;
        }
        proof {
            assert(views.take(orig.len() as int) =~= views);
        }
        DocBuilder(self, node)
    }
}

} // verus!

verus! {

/// The concrete document type for arena storage: children are shared
/// references into the arena that all nodes were allocated in.
#[derive(Debug, PartialEq, Eq)]
pub enum ArenaDoc<'a, A> {
    Nil,
    Append(RefDoc<'a, A>, RefDoc<'a, A>),
    Group(RefDoc<'a, A>),
    Nest(usize, RefDoc<'a, A>),
    Block(usize, RefDoc<'a, A>),
    Space,
    Newline,
    Text(String),
    Annotated(A, RefDoc<'a, A>),
    Union(RefDoc<'a, A>, RefDoc<'a, A>),
}

/// Newtype wrapper for a cheap borrow of an arena-stored document node.
#[derive(Debug, PartialEq, Eq)]
pub struct RefDoc<'a, A>(&'a ArenaDoc<'a, A>);

/// The model of an arena-backed document tree.
pub open spec fn arena_doc_view<'a, A>(d: ArenaDoc<'a, A>) -> DocV
    decreases d,
{
    match d {
        ArenaDoc::Nil => DocV::Nil,
        ArenaDoc::Append(l, r) => DocV::Append(
            Box::new(ref_doc_view(l)),
            Box::new(ref_doc_view(r)),
        ),
        ArenaDoc::Group(x) => DocV::Group(Box::new(ref_doc_view(x))),
        ArenaDoc::Nest(k, x) => DocV::Nest(k as nat, Box::new(ref_doc_view(x))),
        ArenaDoc::Block(k, x) => DocV::Block(k as nat, Box::new(ref_doc_view(x))),
        ArenaDoc::Space => DocV::Space,
        ArenaDoc::Newline => DocV::Newline,
        ArenaDoc::Text(s) => DocV::Text(s@),
        ArenaDoc::Annotated(_a, x) => DocV::Annotated(Box::new(ref_doc_view(x))),
        ArenaDoc::Union(x, y) => DocV::Union(Box::new(ref_doc_view(x)), Box::new(ref_doc_view(y))),
    }
}

/// The model of an arena document handle.
pub closed spec fn ref_doc_view<'a, A>(r: RefDoc<'a, A>) -> DocV
    decreases r,
{
    arena_doc_view(*r.0)
}

impl<'a, A> View for ArenaDoc<'a, A> {
    type V = DocV;

    open spec fn view(&self) -> DocV {
        arena_doc_view(*self)
    }
}

impl<'a, A> View for RefDoc<'a, A> {
    type V = DocV;

    open spec fn view(&self) -> DocV {
        ref_doc_view(*self)
    }
}

impl<'a, A> DocPtr for RefDoc<'a, A> {
    fn open_node(&self) -> (r: DocRef<'_, RefDoc<'a, A>>)
        ensures
            ref_view(r) == self@,
    {
        match self.0 {
            ArenaDoc::Nil => DocRef::Nil,
            ArenaDoc::Append(l, x) => DocRef::Append(l, x),
            ArenaDoc::Group(x) => DocRef::Group(x),
            ArenaDoc::Nest(k, x) => DocRef::Nest(*k, x),
            ArenaDoc::Block(k, x) => DocRef::Block(*k, x),
            ArenaDoc::Space => DocRef::Space,
            ArenaDoc::Newline => DocRef::Newline,
            ArenaDoc::Text(s) => DocRef::Text(s),
            ArenaDoc::Annotated(_a, x) => DocRef::Annotated(x),
            ArenaDoc::Union(x, y) => DocRef::Union(x, y),
        }
    }
}

/// An arena which can be used to allocate `ArenaDoc` values; handles into
/// it are cheap borrows, so subtrees can be shared.
pub type DocArena<'a, A> = typed_arena::Arena<ArenaDoc<'a, A>>;

#[verifier::external_type_specification]
#[verifier::external_body]
#[verifier::reject_recursive_types(T)]
pub struct ExArena<T>(typed_arena::Arena<T>);

/// Relies on `typed_arena::Arena::alloc`: it moves the value into the
/// arena and returns a reference to the stored value that lives as long
/// as the arena itself.  The stored value is exactly the argument, so the
/// handle's model is the model of the allocated node.
#[verifier::external_body]
fn arena_store<'a, A>(arena: &'a DocArena<'a, A>, doc: ArenaDoc<'a, A>) -> (r: RefDoc<'a, A>)
    ensures
        r@ == doc@,
{
    RefDoc(arena.alloc(doc))
}

/// Concatenation of two arena nodes with the `Nil` simplifications.
fn arena_append<'a, A>(
    arena: &'a DocArena<'a, A>,
    l: ArenaDoc<'a, A>,
    r: ArenaDoc<'a, A>,
) -> (res: ArenaDoc<'a, A>)
    ensures
        res@ == spec_append(l@, r@),
{
    match (l, r) {
        (ArenaDoc::Nil, other) => other,
        (this, ArenaDoc::Nil) => this,
        (this, other) => ArenaDoc::Append(arena_store(arena, this), arena_store(arena, other)),
    }
}

/// A deep copy of an arena node into the same arena; the layout model is
/// preserved exactly, whatever the annotations' `Clone` does.
fn arena_clone<'a, A: Clone>(arena: &'a DocArena<'a, A>, d: &ArenaDoc<'a, A>) -> (r: ArenaDoc<'a, A>)
    ensures
        r@ == (*d)@,
    decreases dv_size((*d)@), 0int,
{
    match d {
        ArenaDoc::Nil => ArenaDoc::Nil,
        ArenaDoc::Append(l, x) => ArenaDoc::Append(
            arena_clone_ref(arena, l),
            arena_clone_ref(arena, x),
        ),
        ArenaDoc::Group(x) => ArenaDoc::Group(arena_clone_ref(arena, x)),
        ArenaDoc::Nest(k, x) => ArenaDoc::Nest(*k, arena_clone_ref(arena, x)),
        ArenaDoc::Block(k, x) => ArenaDoc::Block(*k, arena_clone_ref(arena, x)),
        ArenaDoc::Space => ArenaDoc::Space,
        ArenaDoc::Newline => ArenaDoc::Newline,
        ArenaDoc::Text(s) => ArenaDoc::Text(s.clone()),
        ArenaDoc::Annotated(a, x) => ArenaDoc::Annotated(a.clone(), arena_clone_ref(arena, x)),
        ArenaDoc::Union(x, y) => ArenaDoc::Union(
            arena_clone_ref(arena, x),
            arena_clone_ref(arena, y),
        ),
    }
}

/// A deep copy of an arena handle's tree into the same arena.
fn arena_clone_ref<'a, A: Clone>(arena: &'a DocArena<'a, A>, r: &RefDoc<'a, A>) -> (res: RefDoc<
    'a,
    A,
>)
    ensures
        res@ == (*r)@,
    decreases dv_size((*r)@), 1int,
{
    proof {
        assert(dv_size((*r)@) == dv_size((*r.0)@));
    }
    arena_store(arena, arena_clone(arena, r.0))
}

impl<'a, A> DocAllocator<'a, A> for DocArena<'a, A> {
    type Doc = RefDoc<'a, A>;

    type Node = ArenaDoc<'a, A>;

    fn allocate(&'a self, node: ArenaDoc<'a, A>) -> (r: RefDoc<'a, A>) {
        arena_store(self, node)
    }

    fn nil_node(&'a self) -> (r: ArenaDoc<'a, A>) {
        ArenaDoc::Nil
    }

    fn space_node(&'a self) -> (r: ArenaDoc<'a, A>) {
        ArenaDoc::Space
    }

    fn newline_node(&'a self) -> (r: ArenaDoc<'a, A>) {
        ArenaDoc::Newline
    }

    fn text_node(&'a self, data: &str) -> (r: ArenaDoc<'a, A>) {
        ArenaDoc::Text(data.to_owned())
    }

    fn append_nodes(&'a self, l: ArenaDoc<'a, A>, r: ArenaDoc<'a, A>) -> (res: ArenaDoc<'a, A>) {
        arena_append(self, l, r)
    }

    fn group_node(&'a self, d: ArenaDoc<'a, A>) -> (r: ArenaDoc<'a, A>) {
        ArenaDoc::Group(arena_store(self, d))
    }

    fn nest_node(&'a self, offset: usize, d: ArenaDoc<'a, A>) -> (r: ArenaDoc<'a, A>) {
        if offset == 0 {
            return d;
        }
        ArenaDoc::Nest(offset, arena_store(self, d))
    }

    fn annotate_node(&'a self, ann: A, d: ArenaDoc<'a, A>) -> (r: ArenaDoc<'a, A>) {
        ArenaDoc::Annotated(ann, arena_store(self, d))
    }

    fn clone_node(&'a self, d: &ArenaDoc<'a, A>) -> (r: ArenaDoc<'a, A>) where A: Clone {
        arena_clone(self, d)
    }

    fn nil(&'a self) -> (r: DocBuilder<'a, A, Self>) {
        DocBuilder(self, ArenaDoc::Nil)
    }

    fn space(&'a self) -> (r: DocBuilder<'a, A, Self>) {
        DocBuilder(self, ArenaDoc::Space)
    }

    fn newline(&'a self) -> (r: DocBuilder<'a, A, Self>) {
        DocBuilder(self, ArenaDoc::Newline)
    }

    fn text(&'a self, data: &str) -> (r: DocBuilder<'a, A, Self>) {
        DocBuilder(self, ArenaDoc::Text(data.to_owned()))
    }

    fn as_string<T: core::fmt::Display>(&'a self, t: T) -> (r: DocBuilder<'a, A, Self>) {
        let s = t.to_string();
        DocBuilder(self, ArenaDoc::Text(s))
    }

    fn concat(&'a self, docs: Vec<DocBuilder<'a, A, Self>>) -> (r: DocBuilder<'a, A, Self>) {
        let ghost orig = docs@;
        let ghost views = Seq::new(orig.len(), |i: int| orig[i].1@);
        let mut docs = docs;
        let total = docs.len();
        let mut node: ArenaDoc<'a, A> = ArenaDoc::Nil;
        let mut done: usize = 0;
        proof {
            assert(orig.skip(0) =~= orig);
            assert(views.take(0) =~= Seq::<DocV>::empty());
        }
        while docs.len() != 0
            invariant
                done <= total,
                total == orig.len(),
                views == Seq::new(orig.len(), |i: int| orig[i].1@),
                docs@ == orig.skip(done as int),
                node@ == concat_view(views.take(done as int)),
            decreases docs@.len(),
        {
            let d = docs.remove(0);
            proof {
                assert(orig.skip(done as int)[0] == orig[done as int]);
                assert(orig.skip(done as int).remove(0) =~= orig.skip(done + 1));
                assert(views.take(done + 1).drop_last() =~= views.take(done as int));
                assert(views.take(done + 1).last() == orig[done as int].1@);
            }
            node = arena_append(self, node, d.1);
            done = done + 1;
        }
        proof {
            assert(views.take(orig.len() as int) =~= views);
        }
        DocBuilder(self, node)
    }

    fn intersperse(
        &'a self,
        docs: Vec<DocBuilder<'a, A, Self>>,
        separator: DocBuilder<'a, A, Self>,
    ) -> (r: DocBuilder<'a, A, Self>) where A: Clone {
        let ghost orig = docs@;
        let ghost views = Seq::new(orig.len(), |i: int| orig[i].1@);
        let mut docs = docs;
        let total = docs.len();
        let mut node: ArenaDoc<'a, A> = ArenaDoc::Nil;
        let mut done: usize = 0;
        proof {
            assert(orig.skip(0) =~= orig);
        }
        while docs.len() != 0
            invariant
                done <= total,
                total == orig.len(),
                views == Seq::new(orig.len(), |i: int| orig[i].1@),
                docs@ == orig.skip(done as int),
                node@ == intersperse_view(views.take(done as int), separator.1@),
            decreases docs@.len(),
        {
            let d = docs.remove(0);
            proof {
                assert(orig.skip(done as int)[0] == orig[done as int]);
                assert(orig.skip(done as int).remove(0) =~= orig.skip(done + 1));
                assert(views.take(done + 1).drop_last() =~= views.take(done as int));
                assert(views.take(done + 1).last() == orig[done as int].1@);
                assert(views.take(done + 1).len() == done + 1);
            }
            if done == 0 {
                node = arena_append(self, node, d.1);
            } else {
                node = arena_append(self, node, arena_clone(self, &separator.1));
                node = arena_append(self, node, d.1);
            }
            done = done + 1;
        }
        proof {
            assert(views.take(orig.len() as int) =~= views);
        }
        DocBuilder(self, node)
    }
}

impl<'a, A> ArenaDoc<'a, A> {
    /// Open the root node to a one-level view, for the renderer.
    pub fn open_node(&self) -> (r: DocRef<'_, RefDoc<'a, A>>)
        ensures
            ref_view(r) == (*self)@,
    {
        match self {
            ArenaDoc::Nil => DocRef::Nil,
            ArenaDoc::Append(l, x) => DocRef::Append(l, x),
            ArenaDoc::Group(x) => DocRef::Group(x),
            ArenaDoc::Nest(k, x) => DocRef::Nest(*k, x),
            ArenaDoc::Block(k, x) => DocRef::Block(*k, x),
            ArenaDoc::Space => DocRef::Space,
            ArenaDoc::Newline => DocRef::Newline,
            ArenaDoc::Text(s) => DocRef::Text(s),
            ArenaDoc::Annotated(_a, x) => DocRef::Annotated(x),
            ArenaDoc::Union(x, y) => DocRef::Union(x, y),
        }
    }

    /// Writes a rendered document to a `core::fmt::Write` object, as
    /// `Doc::render_fmt` does for heap-backed documents.
    pub fn render_fmt<W: ?Sized + core::fmt::Write>(&self, width: usize, out: &mut W) -> (r:
        Result<(), core::fmt::Error>)
        requires
            width + crate::pretty::layout::weight((*self)@) <= usize::MAX,
    {
        let mut buf = String::new();
        crate::pretty::layout::best(self.open_node(), width, &mut buf);
        crate::pretty::doc::write_str_all(out, buf.as_str())
    }
}

} // verus!
