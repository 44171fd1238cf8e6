//! The layout engine and its specification.
//!
//! The renderer is an iterative stack machine: it keeps a LIFO stack of
//! pending commands `(indent, mode, doc)` and, at every group, decides by
//! a bounded lookahead (the fit probe) whether the group can be laid out
//! flat on the remaining width.  The specification functions
//! [`fitting_spec`] and [`best_spec`] define the same machine over the
//! pointer-free model, and the executable functions are proved to follow
//! them exactly.

use vstd::prelude::*;

verus! {

use vstd::string::StrSliceExecFns;
use vstd::string::StringExecFns;
use vstd::utf8::encode_utf8;

use crate::pretty::doc::copy_ref;
use crate::pretty::doc::ref_view;
use crate::pretty::doc::DocPtr;
use crate::pretty::doc::DocRef;
use crate::pretty::doc::DocV;

broadcast use vstd::string::group_string_axioms;

/// The two layout modes: in `Flat` mode a `Space` is one space and the
/// whole group stays on one line; in `Break` mode every `Space` becomes a
/// line break.
#[derive(Clone, Copy, PartialEq, Eq, Structural)]
pub enum Mode {
    Break,
    Flat,
}

/// The width a text fragment is charged against the page: the length in
/// bytes of its UTF-8 encoding.
pub open spec fn text_width(s: Seq<char>) -> nat {
    encode_utf8(s).len()
}

/// A sequence of `n` spaces.
pub open spec fn pad(n: nat) -> Seq<char> {
    Seq::new(n, |i: int| ' ')
}

/// A measure of a document: an upper bound on the node count, the
/// indentation offsets and the text widths it contains (a text is
/// charged four bytes per character, the widest UTF-8 encoding).  It
/// bounds every column the renderer can reach and strictly shrinks at
/// every step of the machine, so it serves both as a termination
/// measure and as an overflow bound; `Doc::try_weight` computes it.
pub open spec fn weight(d: DocV) -> nat
    decreases d,
{
    match d {
        DocV::Nil => 1,
        DocV::Append(l, r) => 1 + weight(*l) + weight(*r),
        DocV::Group(x) => 1 + weight(*x),
        DocV::Nest(k, x) => 1 + k + weight(*x),
        DocV::Block(k, x) => 1 + k + weight(*x),
        DocV::Space => 1,
        DocV::Newline => 1,
        DocV::Text(s) => 1 + 4 * s.len(),
        DocV::Annotated(x) => 1 + weight(*x),
        DocV::Union(x, y) => 1 + weight(*x) + weight(*y),
    }
}

/// A character's UTF-8 encoding is at most four bytes, so a text's byte
/// width is at most four per character.
pub proof fn lemma_text_width_le(s: Seq<char>)
    ensures
        text_width(s) <= 4 * s.len(),
    decreases s.len(),
{
    if s.len() == 0 {
    } else {
        lemma_text_width_le(s.drop_first());
    }
}

/// A pending rendering command of the model machine.
pub struct CmdV {
    pub ind: nat,
    pub mode: Mode,
    pub doc: DocV,
}

/// The summed weight of the documents on a command stack.
pub open spec fn cmds_weight(s: Seq<CmdV>) -> nat
    decreases s.len(),
{
    if s.len() == 0 {
        0
    } else {
        weight(s.last().doc) + cmds_weight(s.drop_last())
    }
}

pub proof fn lemma_cmds_weight_push(s: Seq<CmdV>, c: CmdV)
    ensures
        cmds_weight(s.push(c)) == cmds_weight(s) + weight(c.doc),
{
    assert(s.push(c).drop_last() =~= s);
    assert(s.push(c).last() == c);
}

pub proof fn lemma_cmds_weight_singleton(c: CmdV)
    ensures
        cmds_weight(seq![c]) == weight(c.doc),
{
    assert(seq![c].len() == 1);
    assert(seq![c].drop_last() =~= Seq::<CmdV>::empty());
    assert(seq![c].last() == c);
    assert(cmds_weight(seq![c].drop_last()) == 0);
}

/// The fit probe of the model machine.
///
/// `f` is the probe's own stack (top at the end), `b` the remainder of
/// the outer continuation (top at the end), and `rem` the width budget
/// left on the current line.  The probe succeeds if the flat rendering
/// reaches a line break or the end of the document before the budget
/// falls below zero.  A separator met in break mode ends the current
/// line, so everything past it is unconstrained; a hard `Newline` met in
/// flat mode means the probed layout does not stay on one line at all,
/// so the probe fails there.
pub open spec fn fitting_spec(f: Seq<CmdV>, b: Seq<CmdV>, rem: int) -> bool
    decreases cmds_weight(f) + cmds_weight(b), b.len(),
{
    if rem < 0 {
        false
    } else if f.len() == 0 {
        if b.len() == 0 {
            true
        } else {
            proof {
                lemma_cmds_weight_singleton(b.last());
            }
            fitting_spec(seq![b.last()], b.drop_last(), rem)
        }
    } else {
        let c = f.last();
        let rest = f.drop_last();
        proof {
            assert forall|c2: CmdV|
                cmds_weight(rest.push(c2)) == cmds_weight(rest) + weight(c2.doc) by {
                lemma_cmds_weight_push(rest, c2);
            }
            assert forall|c2: CmdV, c3: CmdV|
                cmds_weight(rest.push(c2).push(c3)) == cmds_weight(rest) + weight(c2.doc)
                    + weight(c3.doc) by {
                lemma_cmds_weight_push(rest, c2);
                lemma_cmds_weight_push(rest.push(c2), c3);
            }
            assert forall|c2: CmdV| cmds_weight(seq![c2]) == weight(c2.doc) by {
                lemma_cmds_weight_singleton(c2);
            }
        }
        match c.doc {
            DocV::Nil => fitting_spec(rest, b, rem),
            DocV::Append(l, r) => fitting_spec(
                rest.push(CmdV { ind: c.ind, mode: c.mode, doc: *r }).push(
                    CmdV { ind: c.ind, mode: c.mode, doc: *l },
                ),
                b,
                rem,
            ),
            DocV::Group(d) => fitting_spec(
                rest.push(CmdV { ind: c.ind, mode: c.mode, doc: *d }),
                b,
                rem,
            ),
            DocV::Nest(k, d) => fitting_spec(
                rest.push(CmdV { ind: c.ind + k, mode: c.mode, doc: *d }),
                b,
                rem,
            ),
            DocV::Block(k, d) => fitting_spec(
                rest.push(CmdV { ind: c.ind + k, mode: c.mode, doc: *d }),
                b,
                rem,
            ),
            DocV::Space => if c.mode is Flat {
                fitting_spec(rest, b, rem - 1)
            } else {
                true
            },
            DocV::Newline => c.mode is Break,
            DocV::Text(s) => fitting_spec(rest, b, rem - text_width(s)),
            DocV::Annotated(d) => fitting_spec(
                rest.push(CmdV { ind: c.ind, mode: c.mode, doc: *d }),
                b,
                rem,
            ),
            DocV::Union(x, y) => if fitting_spec(
                seq![CmdV { ind: c.ind, mode: Mode::Flat, doc: *x }],
                b,
                rem,
            ) {
                true
            } else {
                fitting_spec(rest.push(CmdV { ind: c.ind, mode: c.mode, doc: *y }), b, rem)
            },
        }
    }
}

/// The layout chosen by the machine for the command stack `b` (top at
/// the end), at column `pos`, with `cind` the indentation most recently
/// emitted as a line prefix, against the page width `width`.
pub open spec fn best_spec(b: Seq<CmdV>, pos: nat, cind: nat, width: nat) -> Seq<char>
    decreases cmds_weight(b),
{
    if b.len() == 0 {
        Seq::empty()
    } else {
        let c = b.last();
        let rest = b.drop_last();
        proof {
            assert forall|c2: CmdV|
                cmds_weight(rest.push(c2)) == cmds_weight(rest) + weight(c2.doc) by {
                lemma_cmds_weight_push(rest, c2);
            }
            assert forall|c2: CmdV, c3: CmdV|
                cmds_weight(rest.push(c2).push(c3)) == cmds_weight(rest) + weight(c2.doc)
                    + weight(c3.doc) by {
                lemma_cmds_weight_push(rest, c2);
                lemma_cmds_weight_push(rest.push(c2), c3);
            }
        }
        match c.doc {
            DocV::Nil => best_spec(rest, pos, cind, width),
            DocV::Append(l, r) => best_spec(
                rest.push(CmdV { ind: c.ind, mode: c.mode, doc: *r }).push(
                    CmdV { ind: c.ind, mode: c.mode, doc: *l },
                ),
                pos,
                cind,
                width,
            ),
            DocV::Group(d) => match c.mode {
                Mode::Flat => best_spec(
                    rest.push(CmdV { ind: c.ind, mode: Mode::Flat, doc: *d }),
                    pos,
                    cind,
                    width,
                ),
                Mode::Break => if fitting_spec(
                    seq![CmdV { ind: c.ind, mode: Mode::Flat, doc: *d }],
                    rest,
                    width - pos,
                ) {
                    best_spec(
                        rest.push(CmdV { ind: c.ind, mode: Mode::Flat, doc: *d }),
                        pos,
                        cind,
                        width,
                    )
                } else {
                    best_spec(
                        rest.push(CmdV { ind: c.ind, mode: Mode::Break, doc: *d }),
                        pos,
                        cind,
                        width,
                    )
                },
            },
            DocV::Nest(k, d) => best_spec(
                rest.push(CmdV { ind: c.ind + k, mode: c.mode, doc: *d }),
                pos,
                cind,
                width,
            ),
            DocV::Block(k, d) => best_spec(
                rest.push(
                    CmdV {
                        ind: if c.ind == cind {
                            c.ind + k
                        } else {
                            c.ind
                        },
                        mode: c.mode,
                        doc: *d,
                    },
                ),
                pos,
                cind,
                width,
            ),
            DocV::Space => if c.mode is Flat {
                seq![' '] + best_spec(rest, pos + 1, cind, width)
            } else {
                seq!['\n'] + pad(c.ind) + best_spec(rest, c.ind, c.ind, width)
            },
            DocV::Newline => seq!['\n'] + pad(c.ind) + best_spec(rest, c.ind, c.ind, width),
            DocV::Text(s) => s + best_spec(rest, pos + text_width(s), cind, width),
            DocV::Annotated(d) => best_spec(
                rest.push(CmdV { ind: c.ind, mode: c.mode, doc: *d }),
                pos,
                cind,
                width,
            ),
            DocV::Union(x, y) => if fitting_spec(
                seq![CmdV { ind: c.ind, mode: Mode::Flat, doc: *x }],
                rest,
                width - pos,
            ) {
                best_spec(
                    rest.push(CmdV { ind: c.ind, mode: Mode::Flat, doc: *x }),
                    pos,
                    cind,
                    width,
                )
            } else {
                best_spec(rest.push(CmdV { ind: c.ind, mode: c.mode, doc: *y }), pos, cind, width)
            },
        }
    }
}

/// The layout of a whole document: the machine starts in break mode at
/// column zero with no indentation emitted.
pub open spec fn rendered(d: DocV, width: nat) -> Seq<char> {
    best_spec(seq![CmdV { ind: 0, mode: Mode::Break, doc: d }], 0, 0, width)
}

/// A pending rendering command of the renderer.
pub struct Cmd<'a, B> {
    pub ind: usize,
    pub mode: Mode,
    pub doc: DocRef<'a, B>,
}

impl<'a, B: View<V = DocV>> View for Cmd<'a, B> {
    type V = CmdV;

    open spec fn view(&self) -> CmdV {
        CmdV { ind: self.ind as nat, mode: self.mode, doc: ref_view(self.doc) }
    }
}

/// The model of a command stack.
pub open spec fn stack_view<'a, B: View<V = DocV>>(s: Seq<Cmd<'a, B>>) -> Seq<CmdV> {
    Seq::new(s.len(), |i: int| s[i]@)
}

/// Rebuild a command from a reference to it.
pub fn copy_cmd<'a, B: View<V = DocV>>(c: &Cmd<'a, B>) -> (r: Cmd<'a, B>)
    ensures
        r == *c,
{
    Cmd { ind: c.ind, mode: c.mode, doc: copy_ref(&c.doc) }
}

pub proof fn lemma_stack_view_push<'a, B: View<V = DocV>>(s: Seq<Cmd<'a, B>>, c: Cmd<'a, B>)
    ensures
        stack_view(s.push(c)) == stack_view(s).push(c@),
{
    assert(stack_view(s.push(c)) =~= stack_view(s).push(c@));
}

pub proof fn lemma_stack_view_drop_last<'a, B: View<V = DocV>>(s: Seq<Cmd<'a, B>>)
    requires
        s.len() > 0,
    ensures
        stack_view(s.drop_last()) == stack_view(s).drop_last(),
{
    assert(stack_view(s.drop_last()) =~= stack_view(s).drop_last());
}

pub proof fn lemma_stack_view_take<'a, B: View<V = DocV>>(s: Seq<Cmd<'a, B>>, n: int)
    requires
        0 <= n <= s.len(),
    ensures
        stack_view(s.take(n)) == stack_view(s).take(n),
{
    assert(stack_view(s.take(n)) =~= stack_view(s).take(n));
}

pub proof fn lemma_stack_view_skip_push<'a, B: View<V = DocV>>(
    s: Seq<Cmd<'a, B>>,
    c: Cmd<'a, B>,
    n: int,
)
    requires
        0 <= n <= s.len(),
    ensures
        stack_view(s.push(c).skip(n)) == stack_view(s.skip(n)).push(c@),
{
    assert(stack_view(s.push(c).skip(n)) =~= stack_view(s.skip(n)).push(c@));
}

pub proof fn lemma_stack_view_skip_drop_last<'a, B: View<V = DocV>>(s: Seq<Cmd<'a, B>>, n: int)
    requires
        0 <= n < s.len(),
    ensures
        stack_view(s.drop_last().skip(n)) == stack_view(s.skip(n)).drop_last(),
{
    assert(stack_view(s.drop_last().skip(n)) =~= stack_view(s.skip(n)).drop_last());
}

/// Every command of the stack keeps its indent, its document's weight and
/// the weight of everything below it within `w0`: the renderer's columns
/// can then never leave `0 ..= w0`.
pub open spec fn stack_fits(s: Seq<CmdV>, w0: nat) -> bool {
    forall|i: int|
        0 <= i < s.len() ==> (#[trigger] s[i]).ind + weight(s[i].doc) + cmds_weight(s.take(i))
            <= w0
}

pub proof fn lemma_stack_fits_pop(s: Seq<CmdV>, w0: nat)
    requires
        stack_fits(s, w0),
        s.len() > 0,
    ensures
        stack_fits(s.drop_last(), w0),
        s.last().ind + weight(s.last().doc) + cmds_weight(s.drop_last()) <= w0,
{
    assert forall|i: int| 0 <= i < s.drop_last().len() implies (#[trigger] s.drop_last()[i]).ind
        + weight(s.drop_last()[i].doc) + cmds_weight(s.drop_last().take(i)) <= w0 by {
        assert(s.drop_last()[i] == s[i]);
        assert(s.drop_last().take(i) =~= s.take(i));
    }
    assert(s.take(s.len() - 1) =~= s.drop_last());
    assert(s[s.len() - 1] == s.last());
}

pub proof fn lemma_stack_fits_push(s: Seq<CmdV>, c: CmdV, w0: nat)
    requires
        stack_fits(s, w0),
        c.ind + weight(c.doc) + cmds_weight(s) <= w0,
    ensures
        stack_fits(s.push(c), w0),
{
    assert forall|i: int| 0 <= i < s.push(c).len() implies (#[trigger] s.push(c)[i]).ind + weight(
        s.push(c)[i].doc,
    ) + cmds_weight(s.push(c).take(i)) <= w0 by {
        if i < s.len() {
            assert(s.push(c)[i] == s[i]);
            assert(s.push(c).take(i) =~= s.take(i));
        } else {
            assert(s.push(c)[i] == c);
            assert(s.push(c).take(i) =~= s);
        }
    }
}

/// A fixed buffer of one hundred spaces, written out in chunks.
const SPACES: &'static str = "                                                                                                    ";

/// Writes the given number of spaces, by chunks drawn from the constant
/// buffer.
#[verifier::loop_isolation(false)]
pub fn write_spaces(spaces: usize, out: &mut String)
    ensures
        final(out)@ == old(out)@ + pad(spaces as nat),
{
    proof {
        reveal_strlit("                                                                                                    ");
        assert(SPACES@ =~= pad(100));
        assert(vstd::string::is_ascii(SPACES));
        assert(old(out)@ + pad(0) =~= old(out)@);
    }
    let mut inserted: usize = 0;
    while inserted < spaces
        invariant
            inserted <= spaces,
            out@ == old(out)@ + pad(inserted as nat),
        decreases spaces - inserted,
    {
        let insert = if spaces - inserted < 100 {
            spaces - inserted
        } else {
            100
        };
        let chunk = SPACES.substring_ascii(0, insert);
        out.append(chunk);
        proof {
            let ghost a = old(out)@;
            let ghost p = pad(inserted as nat);
            assert(chunk@ =~= pad(insert as nat));
            assert(pad((inserted + insert) as nat) =~= p + pad(insert as nat));
            assert(a + (p + pad(insert as nat)) =~= (a + p) + pad(insert as nat));
        }
        inserted = inserted + insert;
    }
}

/// Writes a line feed followed by the indent.
pub fn write_newline(ind: usize, out: &mut String)
    ensures
        final(out)@ == old(out)@ + seq!['\n'] + pad(ind as nat),
{
    out.append("\n");
    proof {
        reveal_strlit("\n");
        assert("\n"@ =~= seq!['\n']);
    }
    write_spaces(ind, out);
}

/// Runs the fit probe for `fitting`: the probe's own commands are kept on
/// `fcmds` above its length at entry, and whatever is left of them there
/// when the verdict is reached is for the caller to discard.
#[verifier::rlimit(100)]
#[verifier::spinoff_prover]
#[verifier::loop_isolation(false)]
pub fn fitting_<'a, B: DocPtr>(
    next: Cmd<'a, B>,
    bcmds: &Vec<Cmd<'a, B>>,
    fcmds: &mut Vec<Cmd<'a, B>>,
    bidx: usize,
    rem: i128,
) -> (r: bool)
    requires
        bidx <= bcmds@.len(),
        next@.ind + weight(next@.doc) <= usize::MAX,
        forall|i: int|
            0 <= i < bidx ==> (#[trigger] bcmds@[i]@).ind + weight(bcmds@[i]@.doc) <= usize::MAX,
    ensures
        r == fitting_spec(seq![next@], stack_view(bcmds@.take(bidx as int)), rem as int),
        final(fcmds)@.len() >= old(fcmds)@.len(),
        final(fcmds)@.take(old(fcmds)@.len() as int) == old(fcmds)@,
    decreases weight(next@.doc) + cmds_weight(stack_view(bcmds@.take(bidx as int))), 0nat,
{
    let fcmds_start_len = fcmds.len();
    let ghost l0 = fcmds_start_len as int;
    let ghost target = fitting_spec(
        seq![next@],
        stack_view(bcmds@.take(bidx as int)),
        rem as int,
    );
    let ghost entry_m = weight(next@.doc) + cmds_weight(stack_view(bcmds@.take(bidx as int)));
    let mut bi = bidx;
    let mut budget = rem;
    fcmds.push(next);
    proof {
        assert(fcmds@.skip(l0) =~= seq![next]);
        assert(stack_view(seq![next]) =~= seq![next@]);
        lemma_cmds_weight_singleton(next@);
        assert(fcmds@.take(l0) =~= old(fcmds)@);
    }
    while budget >= 0
        invariant
            bi <= bidx <= bcmds@.len(),
            next@.ind + weight(next@.doc) <= usize::MAX,
            forall|i: int|
                0 <= i < bidx ==> (#[trigger] bcmds@[i]@).ind + weight(bcmds@[i]@.doc)
                    <= usize::MAX,
            l0 == fcmds_start_len as int,
            fcmds@.len() >= l0,
            fcmds@.take(l0) == old(fcmds)@,
            target == fitting_spec(
                stack_view(fcmds@.skip(l0)),
                stack_view(bcmds@.take(bi as int)),
                budget as int,
            ),
            cmds_weight(stack_view(fcmds@.skip(l0))) + cmds_weight(
                stack_view(bcmds@.take(bi as int)),
            ) <= entry_m,
            entry_m == weight(next@.doc) + cmds_weight(stack_view(bcmds@.take(bidx as int))),
            forall|i: int|
                l0 <= i < fcmds@.len() ==> (#[trigger] fcmds@[i]@).ind + weight(fcmds@[i]@.doc)
                    <= usize::MAX,
        decreases
            cmds_weight(stack_view(fcmds@.skip(l0))) + cmds_weight(
                stack_view(bcmds@.take(bi as int)),
            ),
            bi,
    {
        if fcmds.len() <= fcmds_start_len {
            if bi == 0 {
                proof {
                    assert(fcmds@.skip(l0) =~= Seq::<Cmd<'a, B>>::empty());
                    assert(stack_view(Seq::<Cmd<'a, B>>::empty()) =~= Seq::<CmdV>::empty());
                    assert(bcmds@.take(0) =~= Seq::<Cmd<'a, B>>::empty());
                    assert(fitting_spec(Seq::<CmdV>::empty(), Seq::<CmdV>::empty(), budget as int));
                }
                // All commands have been processed within the budget.
                return true;
            }
            let c = copy_cmd(&bcmds[bi - 1]);
            proof {
                let ghost bv = stack_view(bcmds@.take(bi as int));
                assert(fcmds@.skip(l0) =~= Seq::<Cmd<'a, B>>::empty());
                assert(stack_view(Seq::<Cmd<'a, B>>::empty()) =~= Seq::<CmdV>::empty());
                assert(bv.len() == bi);
                assert(bcmds@.take(bi as int)[bi - 1] == bcmds@[bi - 1]);
                assert(bv.last() == c@);
                lemma_stack_view_take(bcmds@, bi as int);
                assert(bcmds@.take(bi as int).drop_last() =~= bcmds@.take(bi - 1));
                lemma_stack_view_drop_last(bcmds@.take(bi as int));
                lemma_cmds_weight_singleton(c@);
                lemma_stack_view_skip_push(fcmds@, c, l0);
                assert(fcmds@.skip(l0).push(c) =~= seq![c]);
                assert(stack_view(seq![c]) =~= seq![c@]);
                assert(fcmds@.push(c).take(l0) =~= fcmds@.take(l0));
            }
            fcmds.push(c);
            bi = bi - 1;
        } else {
            let ghost fpre = fcmds@;
            let ghost rv = stack_view(fpre.skip(l0));
            let c = fcmds.pop().unwrap();
            proof {
                assert(fpre.subrange(0, fpre.len() - 1) =~= fpre.drop_last());
                assert(fcmds@.take(l0) =~= fpre.take(l0));
                lemma_stack_view_skip_drop_last(fpre, l0);
                assert(fpre.skip(l0).last() == fpre.last());
                assert(rv.last() == c@);
                assert(rv.len() > 0);
                assert(rv.drop_last() == stack_view(fcmds@.skip(l0)));
                let ghost rrest = rv.drop_last();
                assert(cmds_weight(rv) == weight(c@.doc) + cmds_weight(rrest));
                assert forall|c2: CmdV|
                    cmds_weight(rrest.push(c2)) == cmds_weight(rrest) + weight(c2.doc) by {
                    lemma_cmds_weight_push(rrest, c2);
                }
                assert forall|c2: CmdV, c3: CmdV|
                    cmds_weight(rrest.push(c2).push(c3)) == cmds_weight(rrest) + weight(c2.doc)
                        + weight(c3.doc) by {
                    lemma_cmds_weight_push(rrest, c2);
                    lemma_cmds_weight_push(rrest.push(c2), c3);
                }
            }
            let ghost rrest = rv.drop_last();
            let ghost bv = stack_view(bcmds@.take(bi as int));
            match c.doc {
                DocRef::Nil => {
                }
                DocRef::Append(l, x) => {
                    let rc = Cmd { ind: c.ind, mode: c.mode, doc: x.open_node() };
                    proof {
                        lemma_stack_view_skip_push(fcmds@, rc, l0);
                        assert(fcmds@.push(rc).take(l0) =~= fcmds@.take(l0));
                    }
                    fcmds.push(rc);
                    // Walk the left spine as the renderer does, pushing
                    // the right children in one pass.
                    let mut cur = l.open_node();
                    loop
                        invariant
                            fcmds@.len() >= l0,
                            fcmds@.take(l0) == old(fcmds)@,
                            (c@.ind + weight(ref_view(cur))) <= usize::MAX,
                            forall|i: int|
                                l0 <= i < fcmds@.len() ==> (#[trigger] fcmds@[i]@).ind + weight(
                                    fcmds@[i]@.doc,
                                ) <= usize::MAX,
                            target == fitting_spec(
                                stack_view(fcmds@.skip(l0)).push(
                                    CmdV { ind: c@.ind, mode: c@.mode, doc: ref_view(cur) },
                                ),
                                stack_view(bcmds@.take(bi as int)),
                                budget as int,
                            ),
                            cmds_weight(stack_view(fcmds@.skip(l0))) + weight(ref_view(cur))
                                < cmds_weight(rv),
                        decreases weight(ref_view(cur)),
                    {
                        match cur {
                            DocRef::Append(l2, r2) => {
                                let rc2 = Cmd { ind: c.ind, mode: c.mode, doc: r2.open_node() };
                                proof {
                                    let ghost s = stack_view(fcmds@.skip(l0));
                                    let ghost gcur = CmdV {
                                        ind: c@.ind,
                                        mode: c@.mode,
                                        doc: ref_view(cur),
                                    };
                                    let ghost lc2 = CmdV {
                                        ind: c@.ind,
                                        mode: c@.mode,
                                        doc: (*l2)@,
                                    };
                                    assert forall|c2: CmdV|
                                        cmds_weight(s.push(c2)) == cmds_weight(s) + weight(
                                            c2.doc,
                                        ) by {
                                        lemma_cmds_weight_push(s, c2);
                                    }
                                    assert forall|c2: CmdV, c3: CmdV|
                                        cmds_weight(s.push(c2).push(c3)) == cmds_weight(s)
                                            + weight(c2.doc) + weight(c3.doc) by {
                                        lemma_cmds_weight_push(s, c2);
                                        lemma_cmds_weight_push(s.push(c2), c3);
                                    }
                                    assert(s.push(gcur).drop_last() =~= s);
                                    assert(fitting_spec(
                                        s.push(gcur),
                                        stack_view(bcmds@.take(bi as int)),
                                        budget as int,
                                    ) == fitting_spec(
                                        s.push(rc2@).push(lc2),
                                        stack_view(bcmds@.take(bi as int)),
                                        budget as int,
                                    ));
                                    lemma_stack_view_skip_push(fcmds@, rc2, l0);
                                    assert(fcmds@.push(rc2).take(l0) =~= fcmds@.take(l0));
                                }
                                fcmds.push(rc2);
                                cur = l2.open_node();
                            }
                            _ => {
                                break ;
                            }
                        }
                    }
                    let fc = Cmd { ind: c.ind, mode: c.mode, doc: cur };
                    proof {
                        lemma_stack_view_skip_push(fcmds@, fc, l0);
                        assert(fcmds@.push(fc).take(l0) =~= fcmds@.take(l0));
                        lemma_cmds_weight_push(stack_view(fcmds@.skip(l0)), fc@);
                    }
                    fcmds.push(fc);
                }
                DocRef::Group(d) => {
                    let dc = Cmd { ind: c.ind, mode: c.mode, doc: d.open_node() };
                    proof {
                        lemma_stack_view_skip_push(fcmds@, dc, l0);
                        assert(fcmds@.push(dc).take(l0) =~= fcmds@.take(l0));
                    }
                    fcmds.push(dc);
                }
                DocRef::Nest(off, d) => {
                    let dc = Cmd { ind: c.ind + off, mode: c.mode, doc: d.open_node() };
                    proof {
                        lemma_stack_view_skip_push(fcmds@, dc, l0);
                        assert(fcmds@.push(dc).take(l0) =~= fcmds@.take(l0));
                    }
                    fcmds.push(dc);
                }
                DocRef::Block(off, d) => {
                    let dc = Cmd { ind: c.ind + off, mode: c.mode, doc: d.open_node() };
                    proof {
                        lemma_stack_view_skip_push(fcmds@, dc, l0);
                        assert(fcmds@.push(dc).take(l0) =~= fcmds@.take(l0));
                    }
                    fcmds.push(dc);
                }
                DocRef::Space => {
                    match c.mode {
                        Mode::Flat => {
                            budget = budget - 1;
                        }
                        Mode::Break => {
                            // A break absorbs all further width pressure.
                            proof {
                                assert(c@.doc is Space);
                                assert(fitting_spec(rv, bv, budget as int) == true);
                            }
                            return true;
                        }
                    }
                }
                DocRef::Newline => {
                    match c.mode {
                        Mode::Break => {
                            proof {
                                assert(c@.doc is Newline);
                                assert(fitting_spec(rv, bv, budget as int) == true);
                            }
                            return true;
                        }
                        Mode::Flat => {
                            proof {
                                assert(c@.doc is Newline);
                                assert(fitting_spec(rv, bv, budget as int) == false);
                            }
                            return false;
                        }
                    }
                }
                DocRef::Text(s) => {
                    let n = s.as_str().len();
                    proof {
                        lemma_text_width_le((*s)@);
                        assert(weight(c@.doc) == 1 + 4 * (*s)@.len());
                        assert(n == text_width((*s)@));
                    }
                    budget = budget - n as i128;
                }
                DocRef::Annotated(d) => {
                    let dc = Cmd { ind: c.ind, mode: c.mode, doc: d.open_node() };
                    proof {
                        lemma_stack_view_skip_push(fcmds@, dc, l0);
                        assert(fcmds@.push(dc).take(l0) =~= fcmds@.take(l0));
                    }
                    fcmds.push(dc);
                }
                DocRef::Union(x, y) => {
                    let xc = Cmd { ind: c.ind, mode: Mode::Flat, doc: x.open_node() };
                    proof {
                        assert(weight(xc@.doc) + cmds_weight(bv) < entry_m);
                        lemma_stack_view_take(bcmds@, bi as int);
                    }
                    if fitting(xc, bcmds, fcmds, bi, budget) {
                        proof {
                            assert(fitting_spec(rv, bv, budget as int) == true);
                        }
                        return true;
                    }
                    let yc = Cmd { ind: c.ind, mode: c.mode, doc: y.open_node() };
                    proof {
                        lemma_stack_view_skip_push(fcmds@, yc, l0);
                        assert(fcmds@.push(yc).take(l0) =~= fcmds@.take(l0));
                    }
                    fcmds.push(yc);
                }
            }
        }
    }
    false
}

/// Decides whether the command `next`, followed by the outer continuation
/// `bcmds[..bidx]`, can be rendered on the current line within `rem`
/// columns.  The scratch stack `fcmds` is used during the probe and is
/// handed back exactly as it was.
pub fn fitting<'a, B: DocPtr>(
    next: Cmd<'a, B>,
    bcmds: &Vec<Cmd<'a, B>>,
    fcmds: &mut Vec<Cmd<'a, B>>,
    bidx: usize,
    rem: i128,
) -> (r: bool)
    requires
        bidx <= bcmds@.len(),
        next@.ind + weight(next@.doc) <= usize::MAX,
        forall|i: int|
            0 <= i < bidx ==> (#[trigger] bcmds@[i]@).ind + weight(bcmds@[i]@.doc) <= usize::MAX,
    ensures
        r == fitting_spec(seq![next@], stack_view(bcmds@.take(bidx as int)), rem as int),
        final(fcmds)@ == old(fcmds)@,
    decreases weight(next@.doc) + cmds_weight(stack_view(bcmds@.take(bidx as int))), 1nat,
{
    let fcmds_start_len = fcmds.len();
    let result = fitting_(next, bcmds, fcmds, bidx, rem);
    fcmds.truncate(fcmds_start_len);
    proof {
        assert(fcmds@ == old(fcmds)@);
    }
    result
}

/// Lays out the document designated by `doc` against the page width
/// `width`, appending the characters to `out`.  The output is exactly
/// the layout described by `rendered`.
#[verifier::rlimit(100)]
#[verifier::spinoff_prover]
#[verifier::loop_isolation(false)]
pub fn best<'a, B: DocPtr>(doc: DocRef<'a, B>, width: usize, out: &mut String)
    requires
        width + weight(ref_view(doc)) <= usize::MAX,
    ensures
        final(out)@ == old(out)@ + rendered(ref_view(doc), width as nat),
{
    let ghost dv = ref_view(doc);
    let ghost w0 = (width + weight(dv)) as nat;
    let ghost wn = width as nat;
    let mut pos: usize = 0;
    let mut bcmds: Vec<Cmd<'a, B>> = Vec::new();
    let root = Cmd { ind: 0, mode: Mode::Break, doc };
    bcmds.push(root);
    let mut fcmds: Vec<Cmd<'a, B>> = Vec::new();
    let mut current_indentation: usize = 0;
    proof {
        assert(bcmds@ =~= seq![root]);
        assert(stack_view(seq![root]) =~= seq![root@]);
        lemma_cmds_weight_singleton(root@);
        lemma_stack_fits_push(Seq::<CmdV>::empty(), root@, w0);
        assert(seq![root@].drop_last() =~= Seq::<CmdV>::empty());
        assert(Seq::<CmdV>::empty().push(root@) =~= seq![root@]);
        assert(root@ == (CmdV { ind: 0, mode: Mode::Break, doc: dv }));
        assert(out@ + rendered(dv, wn) == old(out)@ + rendered(dv, wn));
    }
    while bcmds.len() != 0
        invariant
            stack_fits(stack_view(bcmds@), w0),
            pos + cmds_weight(stack_view(bcmds@)) <= w0,
            out@ + best_spec(stack_view(bcmds@), pos as nat, current_indentation as nat, wn)
                == old(out)@ + rendered(dv, wn),
        decreases cmds_weight(stack_view(bcmds@)),
    {
        let ghost pre = bcmds@;
        let ghost prev = stack_view(pre);
        let ghost pos0 = pos as nat;
        let ghost cind0 = current_indentation as nat;
        let c = bcmds.pop().unwrap();
        proof {
            assert(pre.subrange(0, pre.len() - 1) =~= pre.drop_last());
            lemma_stack_view_drop_last(pre);
            assert(stack_view(bcmds@) == prev.drop_last());
            assert(prev.last() == c@);
            lemma_stack_fits_pop(prev, w0);
            assert(cmds_weight(prev) == weight(c@.doc) + cmds_weight(prev.drop_last()));
            assert forall|c2: CmdV|
                cmds_weight(prev.drop_last().push(c2)) == cmds_weight(prev.drop_last()) + weight(
                    c2.doc,
                ) by {
                lemma_cmds_weight_push(prev.drop_last(), c2);
            }
            assert forall|c2: CmdV, c3: CmdV|
                cmds_weight(prev.drop_last().push(c2).push(c3)) == cmds_weight(prev.drop_last())
                    + weight(c2.doc) + weight(c3.doc) by {
                lemma_cmds_weight_push(prev.drop_last(), c2);
                lemma_cmds_weight_push(prev.drop_last().push(c2), c3);
            }
        }
        let ghost rest = prev.drop_last();
        match c.doc {
            DocRef::Nil => {
            }
            DocRef::Append(l, x) => {
                let rc = Cmd { ind: c.ind, mode: c.mode, doc: x.open_node() };
                proof {
                    lemma_stack_view_push(bcmds@, rc);
                    lemma_stack_fits_push(rest, rc@, w0);
                }
                bcmds.push(rc);
                // Appended documents often stand in sequence on the left
                // side, so push the whole left spine in one pass instead
                // of popping each intermediate node again.
                let mut cur = l.open_node();
                loop
                    invariant
                        stack_fits(stack_view(bcmds@), w0),
                        c@.ind + weight(ref_view(cur)) + cmds_weight(stack_view(bcmds@)) <= w0,
                        pos + cmds_weight(stack_view(bcmds@)) + weight(ref_view(cur)) <= w0,
                        cmds_weight(stack_view(bcmds@)) + weight(ref_view(cur)) < cmds_weight(
                            rest,
                        ) + weight(c@.doc),
                        pos == pos0,
                        current_indentation as nat == cind0,
                        out@ + best_spec(
                            stack_view(bcmds@).push(
                                CmdV { ind: c@.ind, mode: c@.mode, doc: ref_view(cur) },
                            ),
                            pos0,
                            cind0,
                            wn,
                        ) == old(out)@ + rendered(dv, wn),
                    decreases weight(ref_view(cur)),
                {
                    match cur {
                        DocRef::Append(l2, r2) => {
                            let rc2 = Cmd { ind: c.ind, mode: c.mode, doc: r2.open_node() };
                            proof {
                                let ghost s = stack_view(bcmds@);
                                let ghost gcur = CmdV {
                                    ind: c@.ind,
                                    mode: c@.mode,
                                    doc: ref_view(cur),
                                };
                                let ghost lc2 = CmdV {
                                    ind: c@.ind,
                                    mode: c@.mode,
                                    doc: (*l2)@,
                                };
                                assert forall|c2: CmdV|
                                    cmds_weight(s.push(c2)) == cmds_weight(s) + weight(c2.doc) by {
                                    lemma_cmds_weight_push(s, c2);
                                }
                                assert forall|c2: CmdV, c3: CmdV|
                                    cmds_weight(s.push(c2).push(c3)) == cmds_weight(s) + weight(
                                        c2.doc,
                                    ) + weight(c3.doc) by {
                                    lemma_cmds_weight_push(s, c2);
                                    lemma_cmds_weight_push(s.push(c2), c3);
                                }
                                assert(s.push(gcur).drop_last() =~= s);
                                assert(best_spec(s.push(gcur), pos0, cind0, wn) == best_spec(
                                    s.push(rc2@).push(lc2),
                                    pos0,
                                    cind0,
                                    wn,
                                ));
                                lemma_stack_view_push(bcmds@, rc2);
                                lemma_stack_fits_push(s, rc2@, w0);
                                assert forall|i: int|
                                    0 <= i < s.push(rc2@).len() implies (#[trigger] s.push(
                                    rc2@,
                                )[i]).ind + weight(s.push(rc2@)[i].doc) + cmds_weight(
                                    s.push(rc2@).take(i),
                                ) <= w0 by {}
                            }
                            bcmds.push(rc2);
                            cur = l2.open_node();
                        }
                        _ => {
                            break ;
                        }
                    }
                }
                let fc = Cmd { ind: c.ind, mode: c.mode, doc: cur };
                proof {
                    lemma_stack_view_push(bcmds@, fc);
                    lemma_stack_fits_push(stack_view(bcmds@), fc@, w0);
                    lemma_cmds_weight_push(stack_view(bcmds@), fc@);
                }
                bcmds.push(fc);
            }
            DocRef::Group(d) => {
                match c.mode {
                    Mode::Flat => {
                        let dc = Cmd { ind: c.ind, mode: Mode::Flat, doc: d.open_node() };
                        proof {
                            lemma_stack_view_push(bcmds@, dc);
                            lemma_stack_fits_push(rest, dc@, w0);
                        }
                        bcmds.push(dc);
                    }
                    Mode::Break => {
                        let dn = d.open_node();
                        let next = Cmd { ind: c.ind, mode: Mode::Flat, doc: copy_ref(&dn) };
                        let rem: i128 = width as i128 - pos as i128;
                        fcmds.clear();
                        let bl = bcmds.len();
                        proof {
                            lemma_stack_view_take(bcmds@, bl as int);
                            assert(bcmds@.take(bl as int) =~= bcmds@);
                            assert forall|i: int|
                                0 <= i < bl implies (#[trigger] bcmds@[i]@).ind + weight(
                                bcmds@[i]@.doc,
                            ) <= usize::MAX by {
                                assert(stack_view(bcmds@)[i] == bcmds@[i]@);
                            }
                        }
                        if fitting(next, &bcmds, &mut fcmds, bl, rem) {
                            let fc = Cmd { ind: c.ind, mode: Mode::Flat, doc: dn };
                            proof {
                                lemma_stack_view_push(bcmds@, fc);
                                lemma_stack_fits_push(rest, fc@, w0);
                            }
                            bcmds.push(fc);
                        } else {
                            let fc = Cmd { ind: c.ind, mode: Mode::Break, doc: dn };
                            proof {
                                lemma_stack_view_push(bcmds@, fc);
                                lemma_stack_fits_push(rest, fc@, w0);
                            }
                            bcmds.push(fc);
                        }
                    }
                }
            }
            DocRef::Nest(off, d) => {
                let dc = Cmd { ind: c.ind + off, mode: c.mode, doc: d.open_node() };
                proof {
                    lemma_stack_view_push(bcmds@, dc);
                    lemma_stack_fits_push(rest, dc@, w0);
                }
                bcmds.push(dc);
            }
            DocRef::Block(off, d) => {
                let new_ind = if c.ind == current_indentation {
                    c.ind + off
                } else {
                    c.ind
                };
                let dc = Cmd { ind: new_ind, mode: c.mode, doc: d.open_node() };
                proof {
                    lemma_stack_view_push(bcmds@, dc);
                    lemma_stack_fits_push(rest, dc@, w0);
                }
                bcmds.push(dc);
            }
            DocRef::Space => {
                match c.mode {
                    Mode::Flat => {
                        let ghost outpre = out@;
                        write_spaces(1, out);
                        proof {
                            assert(pad(1) =~= seq![' ']);
                            let ghost b2 = best_spec(rest, pos0 + 1, cind0, wn);
                            assert(outpre + (seq![' '] + b2) =~= (outpre + seq![' ']) + b2);
                        }
                        pos = pos + 1;
                    }
                    Mode::Break => {
                        let ghost outpre = out@;
                        write_newline(c.ind, out);
                        proof {
                            let ghost nl = seq!['\n'];
                            let ghost p = pad(c.ind as nat);
                            let ghost b2 = best_spec(rest, c.ind as nat, c.ind as nat, wn);
                            assert(outpre + (nl + p + b2) =~= (outpre + nl + p) + b2);
                        }
                        current_indentation = c.ind;
                        pos = c.ind;
                    }
                }
            }
            DocRef::Newline => {
                let ghost outpre = out@;
                write_newline(c.ind, out);
                proof {
                    let ghost nl = seq!['\n'];
                    let ghost p = pad(c.ind as nat);
                    let ghost b2 = best_spec(rest, c.ind as nat, c.ind as nat, wn);
                    assert(outpre + (nl + p + b2) =~= (outpre + nl + p) + b2);
                }
                current_indentation = c.ind;
                pos = c.ind;
            }
            DocRef::Text(s) => {
                let ghost outpre = out@;
                let n = s.as_str().len();
                out.append(s.as_str());
                proof {
                    lemma_text_width_le((*s)@);
                    assert(weight(c@.doc) == 1 + 4 * (*s)@.len());
                    assert(n == text_width((*s)@));
                    let ghost b2 = best_spec(rest, pos0 + text_width((*s)@), cind0, wn);
                    assert(outpre + ((*s)@ + b2) =~= (outpre + (*s)@) + b2);
                }
                pos = pos + n;
            }
            DocRef::Annotated(d) => {
                let dc = Cmd { ind: c.ind, mode: c.mode, doc: d.open_node() };
                proof {
                    lemma_stack_view_push(bcmds@, dc);
                    lemma_stack_fits_push(rest, dc@, w0);
                }
                bcmds.push(dc);
            }
            DocRef::Union(x, y) => {
                let xn = x.open_node();
                let next = Cmd { ind: c.ind, mode: Mode::Flat, doc: xn };
                let rem: i128 = width as i128 - pos as i128;
                fcmds.clear();
                let bl = bcmds.len();
                proof {
                    lemma_stack_view_take(bcmds@, bl as int);
                    assert(bcmds@.take(bl as int) =~= bcmds@);
                    assert forall|i: int|
                        0 <= i < bl implies (#[trigger] bcmds@[i]@).ind + weight(bcmds@[i]@.doc)
                        <= usize::MAX by {
                        assert(stack_view(bcmds@)[i] == bcmds@[i]@);
                    }
                }
                if fitting(next, &bcmds, &mut fcmds, bl, rem) {
                    // The fitting left alternative is rendered flat.
                    let fc = Cmd { ind: c.ind, mode: Mode::Flat, doc: x.open_node() };
                    proof {
                        lemma_stack_view_push(bcmds@, fc);
                        lemma_stack_fits_push(rest, fc@, w0);
                    }
                    bcmds.push(fc);
                } else {
                    let fc = Cmd { ind: c.ind, mode: c.mode, doc: y.open_node() };
                    proof {
                        lemma_stack_view_push(bcmds@, fc);
                        lemma_stack_fits_push(rest, fc@, w0);
                    }
                    bcmds.push(fc);
                }
            }
        }
    }
    proof {
        assert(stack_view(bcmds@) =~= Seq::<CmdV>::empty());
        assert(out@ + best_spec(Seq::<CmdV>::empty(), pos as nat, current_indentation as nat, wn)
            =~= out@);
    }
}

} // verus!
