//! The general laws of the document algebra and its renderer, proved
//! once and for all over the model: what the empty document, zero
//! indentation and single-document `intersperse` simplify to, which
//! characters the renderer can emit, how a break writes its indent, how
//! a group chooses its layout, and the length of a flat layout.

use vstd::prelude::*;

verus! {

use vstd::utf8::encode_utf8;

use crate::pretty::doc::intersperse_view;
use crate::pretty::doc::spec_append;
use crate::pretty::doc::DocV;
use crate::pretty::layout::best_spec;
use crate::pretty::layout::cmds_weight;
use crate::pretty::layout::fitting_spec;
use crate::pretty::layout::lemma_cmds_weight_push;
use crate::pretty::layout::pad;
use crate::pretty::layout::rendered;
use crate::pretty::layout::text_width;
use crate::pretty::layout::weight;
use crate::pretty::layout::CmdV;
use crate::pretty::layout::Mode;

/// The empty document is a two-sided identity for concatenation: either
/// append returns the other operand itself, so the results are equal
/// structurally and in everything derived from them, the rendering
/// included.
pub proof fn lemma_append_nil(d: DocV)
    ensures
        spec_append(DocV::Nil, d) == d,
        spec_append(d, DocV::Nil) == d,
{
}

/// The empty document renders as no output at all, whatever the width.
pub proof fn lemma_render_nil(width: nat)
    ensures
        rendered(DocV::Nil, width) == Seq::<char>::empty(),
{
    let c = CmdV { ind: 0, mode: Mode::Break, doc: DocV::Nil };
    assert(seq![c].drop_last() =~= Seq::<CmdV>::empty());
    assert(rendered(DocV::Nil, width) == best_spec(Seq::<CmdV>::empty(), 0, 0, width));
}

/// Nesting by zero is invisible: a `Nest(0, d)` node is laid out exactly
/// as `d` itself, from any starting state.  (The `nest` combinators never
/// build such a node: a zero offset returns the document unchanged.)
pub proof fn lemma_nest_zero(d: DocV, width: nat)
    ensures
        rendered(DocV::Nest(0, Box::new(d)), width) == rendered(d, width),
{
    let n = CmdV { ind: 0, mode: Mode::Break, doc: DocV::Nest(0, Box::new(d)) };
    let c = CmdV { ind: 0, mode: Mode::Break, doc: d };
    assert(seq![n].drop_last() =~= Seq::<CmdV>::empty());
    assert(Seq::<CmdV>::empty().push(c) =~= seq![c]);
}

/// A single document interspersed with any separator is that document
/// alone, and no documents at all yield the empty document.
pub proof fn lemma_intersperse_unit(d: DocV, sep: DocV)
    ensures
        intersperse_view(seq![d], sep) == d,
        intersperse_view(Seq::<DocV>::empty(), sep) == DocV::Nil,
{
    assert(seq![d].len() == 1);
    assert(seq![d][0] == d);
}

/// Whether some text fragment of the document contains the character.
pub open spec fn doc_has_char(d: DocV, ch: char) -> bool
    decreases d,
{
    match d {
        DocV::Nil => false,
        DocV::Append(l, r) => doc_has_char(*l, ch) || doc_has_char(*r, ch),
        DocV::Group(x) => doc_has_char(*x, ch),
        DocV::Nest(_k, x) => doc_has_char(*x, ch),
        DocV::Block(_k, x) => doc_has_char(*x, ch),
        DocV::Space => false,
        DocV::Newline => false,
        DocV::Text(s) => exists|i: int| 0 <= i < s.len() && s[i] == ch,
        DocV::Annotated(x) => doc_has_char(*x, ch),
        DocV::Union(x, y) => doc_has_char(*x, ch) || doc_has_char(*y, ch),
    }
}

/// A document all of whose text fragments are free of line breaks has no
/// carriage return anywhere.
pub proof fn lemma_valid_no_cr(d: DocV)
    ensures
        crate::pretty::doc::doc_valid(d) ==> !doc_has_char(d, '\r'),
    decreases d,
{
    match d {
        DocV::Append(l, r) => {
            lemma_valid_no_cr(*l);
            lemma_valid_no_cr(*r);
        }
        DocV::Group(x) => lemma_valid_no_cr(*x),
        DocV::Nest(_k, x) => lemma_valid_no_cr(*x),
        DocV::Block(_k, x) => lemma_valid_no_cr(*x),
        DocV::Annotated(x) => lemma_valid_no_cr(*x),
        DocV::Union(x, y) => {
            lemma_valid_no_cr(*x);
            lemma_valid_no_cr(*y);
        }
        _ => {}
    }
}

/// The machine emits nothing but the documents' own text fragments,
/// spaces and line feeds: any other character absent from every document
/// on the stack is absent from the output.
#[verifier::rlimit(100)]
#[verifier::spinoff_prover]
pub proof fn lemma_output_excludes(cmds: Seq<CmdV>, pos: nat, cind: nat, width: nat, ch: char)
    requires
        ch != ' ',
        ch != '\n',
        forall|i: int| 0 <= i < cmds.len() ==> !doc_has_char((#[trigger] cmds[i]).doc, ch),
    ensures
        forall|j: int|
            0 <= j < best_spec(cmds, pos, cind, width).len() ==> best_spec(
                cmds,
                pos,
                cind,
                width,
            )[j] != ch,
    decreases cmds_weight(cmds),
{
    if cmds.len() == 0 {
    } else {
        let c = cmds.last();
        let rest = cmds.drop_last();
        assert(!doc_has_char(c.doc, ch)) by {
            assert(cmds[cmds.len() - 1] == c);
        }
        assert forall|i: int| 0 <= i < rest.len() implies !doc_has_char(
            (#[trigger] rest[i]).doc,
            ch,
        ) by {
            assert(rest[i] == cmds[i]);
        }
        assert forall|c2: CmdV|
            cmds_weight(rest.push(c2)) == cmds_weight(rest) + weight(c2.doc) by {
            lemma_cmds_weight_push(rest, c2);
        }
        assert forall|c2: CmdV, c3: CmdV|
            cmds_weight(rest.push(c2).push(c3)) == cmds_weight(rest) + weight(c2.doc) + weight(
                c3.doc,
            ) by {
            lemma_cmds_weight_push(rest, c2);
            lemma_cmds_weight_push(rest.push(c2), c3);
        }
        assert forall|s: Seq<CmdV>, c2: CmdV, i: int|
            (forall|k: int| 0 <= k < s.len() ==> !doc_has_char((#[trigger] s[k]).doc, ch))
                && !doc_has_char(c2.doc, ch) && 0 <= i < s.push(c2).len() implies !doc_has_char(
            (#[trigger] s.push(c2)[i]).doc,
            ch,
        ) by {
            if i < s.len() {
                assert(s.push(c2)[i] == s[i]);
            } else {
                assert(s.push(c2)[i] == c2);
            }
        }
        assert(cmds_weight(cmds) == weight(c.doc) + cmds_weight(rest));
        let o = best_spec(cmds, pos, cind, width);
        match c.doc {
            DocV::Nil => {
                lemma_output_excludes(rest, pos, cind, width, ch);
                assert(o == best_spec(rest, pos, cind, width));
            }
            DocV::Append(l, r) => {
                let rc = CmdV { ind: c.ind, mode: c.mode, doc: *r };
                let lc = CmdV { ind: c.ind, mode: c.mode, doc: *l };
                assert(weight(c.doc) == 1 + weight(*l) + weight(*r));
                lemma_output_excludes(rest.push(rc).push(lc), pos, cind, width, ch);
                assert(o == best_spec(rest.push(rc).push(lc), pos, cind, width));
            }
            DocV::Group(d) => {
                let fc = CmdV { ind: c.ind, mode: Mode::Flat, doc: *d };
                let bc = CmdV { ind: c.ind, mode: Mode::Break, doc: *d };
                assert(weight(c.doc) == 1 + weight(*d));
                match c.mode {
                    Mode::Flat => {
                        lemma_output_excludes(rest.push(fc), pos, cind, width, ch);
                        assert(o == best_spec(rest.push(fc), pos, cind, width));
                    }
                    Mode::Break => {
                        if fitting_spec(seq![fc], rest, width - pos) {
                            lemma_output_excludes(rest.push(fc), pos, cind, width, ch);
                            assert(o == best_spec(rest.push(fc), pos, cind, width));
                        } else {
                            lemma_output_excludes(rest.push(bc), pos, cind, width, ch);
                            assert(o == best_spec(rest.push(bc), pos, cind, width));
                        }
                    }
                }
            }
            DocV::Nest(k, d) => {
                let dc = CmdV { ind: c.ind + k, mode: c.mode, doc: *d };
                assert(weight(c.doc) == 1 + k + weight(*d));
                lemma_output_excludes(rest.push(dc), pos, cind, width, ch);
                assert(o == best_spec(rest.push(dc), pos, cind, width));
            }
            DocV::Block(k, d) => {
                let ni = if c.ind == cind {
                    c.ind + k
                } else {
                    c.ind
                };
                let dc = CmdV { ind: ni, mode: c.mode, doc: *d };
                assert(weight(c.doc) == 1 + k + weight(*d));
                lemma_output_excludes(rest.push(dc), pos, cind, width, ch);
                assert(o == best_spec(rest.push(dc), pos, cind, width));
            }
            DocV::Space => {
                match c.mode {
                    Mode::Flat => {
                        lemma_output_excludes(rest, pos + 1, cind, width, ch);
                        assert(o == seq![' '] + best_spec(rest, pos + 1, cind, width));
                    }
                    Mode::Break => {
                        lemma_output_excludes(rest, c.ind, c.ind, width, ch);
                        assert(forall|j: int| 0 <= j < pad(c.ind).len() ==> pad(c.ind)[j] == ' ');
                        assert(o == seq!['\n'] + pad(c.ind) + best_spec(
                            rest,
                            c.ind,
                            c.ind,
                            width,
                        ));
                    }
                }
            }
            DocV::Newline => {
                lemma_output_excludes(rest, c.ind, c.ind, width, ch);
                assert(forall|j: int| 0 <= j < pad(c.ind).len() ==> pad(c.ind)[j] == ' ');
                assert(o == seq!['\n'] + pad(c.ind) + best_spec(rest, c.ind, c.ind, width));
            }
            DocV::Text(s) => {
                lemma_output_excludes(rest, pos + text_width(s), cind, width, ch);
                assert(forall|j: int| 0 <= j < s.len() ==> s[j] != ch);
                assert(o == s + best_spec(rest, pos + text_width(s), cind, width));
            }
            DocV::Annotated(d) => {
                let dc = CmdV { ind: c.ind, mode: c.mode, doc: *d };
                assert(weight(c.doc) == 1 + weight(*d));
                lemma_output_excludes(rest.push(dc), pos, cind, width, ch);
                assert(o == best_spec(rest.push(dc), pos, cind, width));
            }
            DocV::Union(x, y) => {
                let fc = CmdV { ind: c.ind, mode: Mode::Flat, doc: *x };
                let yc = CmdV { ind: c.ind, mode: c.mode, doc: *y };
                assert(weight(c.doc) == 1 + weight(*x) + weight(*y));
                if fitting_spec(seq![fc], rest, width - pos) {
                    lemma_output_excludes(rest.push(fc), pos, cind, width, ch);
                    assert(o == best_spec(rest.push(fc), pos, cind, width));
                } else {
                    lemma_output_excludes(rest.push(yc), pos, cind, width, ch);
                    assert(o == best_spec(rest.push(yc), pos, cind, width));
                }
            }
        }
    }
}

/// The rendered output of a document whose text fragments contain no
/// carriage return and no tab contains neither character, at any width:
/// the renderer emits only the text fragments themselves, spaces and
/// line feeds.
pub proof fn lemma_no_cr_no_tab(d: DocV, width: nat)
    requires
        !doc_has_char(d, '\r'),
        !doc_has_char(d, '\t'),
    ensures
        forall|j: int|
            0 <= j < rendered(d, width).len() ==> rendered(d, width)[j] != '\r' && rendered(
                d,
                width,
            )[j] != '\t',
{
    let c = CmdV { ind: 0, mode: Mode::Break, doc: d };
    assert(seq![c][0] == c);
    lemma_output_excludes(seq![c], 0, 0, width, '\r');
    lemma_output_excludes(seq![c], 0, 0, width, '\t');
}

/// At a soft separator met in break mode, the machine emits a line feed
/// followed by exactly the spaces of the separator's indent, records that
/// indent, and continues at that column.  Together with
/// `lemma_newline_emits_indent` these are the only rules of the machine
/// that put a line feed into the output (`lemma_output_excludes` shows
/// the only other characters come from the texts themselves), so every
/// line feed of a document with break-free texts is followed by exactly
/// the pad of the indent in force at its break.
pub proof fn lemma_break_emits_indent(cmds: Seq<CmdV>, pos: nat, cind: nat, width: nat)
    requires
        cmds.len() > 0,
        cmds.last().doc is Space,
        cmds.last().mode is Break,
    ensures
        best_spec(cmds, pos, cind, width) == seq!['\n'] + pad(cmds.last().ind) + best_spec(
            cmds.drop_last(),
            cmds.last().ind,
            cmds.last().ind,
            width,
        ),
{
}

/// A hard break always emits a line feed followed by exactly the spaces
/// of its indent, whatever the mode.
pub proof fn lemma_newline_emits_indent(cmds: Seq<CmdV>, pos: nat, cind: nat, width: nat)
    requires
        cmds.len() > 0,
        cmds.last().doc is Newline,
    ensures
        best_spec(cmds, pos, cind, width) == seq!['\n'] + pad(cmds.last().ind) + best_spec(
            cmds.drop_last(),
            cmds.last().ind,
            cmds.last().ind,
            width,
        ),
{
}

/// A group in break mode chooses its flat layout exactly when the fit
/// probe succeeds on its subtree against the remaining width, and its
/// break layout otherwise; the group's subtree then runs in that mode,
/// so after a break choice every soft separator directly inside the
/// group falls under `lemma_break_emits_indent`.
pub proof fn lemma_group_choice(cmds: Seq<CmdV>, pos: nat, cind: nat, width: nat)
    requires
        cmds.len() > 0,
        cmds.last().doc is Group,
        cmds.last().mode is Break,
    ensures
        best_spec(cmds, pos, cind, width) == if fitting_spec(
            seq![
                CmdV {
                    ind: cmds.last().ind,
                    mode: Mode::Flat,
                    doc: *cmds.last().doc->Group_0,
                },
            ],
            cmds.drop_last(),
            width - pos,
        ) {
            best_spec(
                cmds.drop_last().push(
                    CmdV {
                        ind: cmds.last().ind,
                        mode: Mode::Flat,
                        doc: *cmds.last().doc->Group_0,
                    },
                ),
                pos,
                cind,
                width,
            )
        } else {
            best_spec(
                cmds.drop_last().push(
                    CmdV {
                        ind: cmds.last().ind,
                        mode: Mode::Break,
                        doc: *cmds.last().doc->Group_0,
                    },
                ),
                pos,
                cind,
                width,
            )
        },
{
}

/// No `Union` and no `Block` anywhere in the tree: the two variants that
/// only internal construction can reach.
pub open spec fn plain(d: DocV) -> bool
    decreases d,
{
    match d {
        DocV::Nil => true,
        DocV::Append(l, r) => plain(*l) && plain(*r),
        DocV::Group(x) => plain(*x),
        DocV::Nest(_k, x) => plain(*x),
        DocV::Block(_k, _x) => false,
        DocV::Space => true,
        DocV::Newline => true,
        DocV::Text(_s) => true,
        DocV::Annotated(x) => plain(*x),
        DocV::Union(_x, _y) => false,
    }
}

/// The byte length of the flat layout of a document at the given indent:
/// its texts' bytes, one byte per space, and a line feed plus indent per
/// hard break.
pub open spec fn flat_len(d: DocV, ind: nat) -> nat
    decreases d,
{
    match d {
        DocV::Nil => 0,
        DocV::Append(l, r) => flat_len(*l, ind) + flat_len(*r, ind),
        DocV::Group(x) => flat_len(*x, ind),
        DocV::Nest(k, x) => flat_len(*x, ind + k),
        DocV::Block(_k, _x) => 0,
        DocV::Space => 1,
        DocV::Newline => 1 + ind,
        DocV::Text(s) => text_width(s),
        DocV::Annotated(x) => flat_len(*x, ind),
        DocV::Union(_x, _y) => 0,
    }
}

/// The summed flat lengths of the documents on a command stack.
pub open spec fn flat_sum(cmds: Seq<CmdV>) -> nat
    decreases cmds.len(),
{
    if cmds.len() == 0 {
        0
    } else {
        flat_len(cmds.last().doc, cmds.last().ind) + flat_sum(cmds.drop_last())
    }
}

pub proof fn lemma_flat_sum_push(s: Seq<CmdV>, c: CmdV)
    ensures
        flat_sum(s.push(c)) == flat_sum(s) + flat_len(c.doc, c.ind),
{
    assert(s.push(c).drop_last() =~= s);
    assert(s.push(c).last() == c);
}

/// The UTF-8 byte width of a concatenation is the sum of the byte
/// widths.
pub proof fn lemma_text_width_concat(a: Seq<char>, b: Seq<char>)
    ensures
        text_width(a + b) == text_width(a) + text_width(b),
    decreases a.len(),
{
    if a.len() == 0 {
        assert(a + b =~= b);
    } else {
        assert((a + b).len() > 0);
        assert((a + b)[0] == a[0]);
        assert((a + b).drop_first() =~= a.drop_first() + b);
        lemma_text_width_concat(a.drop_first(), b);
    }
}

/// A single character below `0x80` is one byte wide.
pub proof fn lemma_ascii_char_width(ch: char)
    requires
        (ch as u32) < 0x80,
    ensures
        text_width(seq![ch]) == 1,
{
    assert(seq![ch][0] == ch);
    assert(seq![ch].drop_first() =~= Seq::<char>::empty());
    assert(encode_utf8(seq![ch]) =~= vstd::utf8::encode_scalar(ch as u32) + encode_utf8(
        Seq::<char>::empty(),
    ));
    assert(vstd::utf8::has_width_1_encoding(ch as u32));
}

/// A pad of `n` spaces is `n` bytes wide.
pub proof fn lemma_pad_width(n: nat)
    ensures
        text_width(pad(n)) == n,
    decreases n,
{
    if n == 0 {
        assert(pad(0) =~= Seq::<char>::empty());
    } else {
        assert(pad(n) =~= pad((n - 1) as nat) + seq![' ']);
        lemma_pad_width((n - 1) as nat);
        lemma_text_width_concat(pad((n - 1) as nat), seq![' ']);
        lemma_ascii_char_width(' ');
    }
}

/// On an all-flat stack of `Union`- and `Block`-free documents, the
/// machine's output is exactly `flat_sum` bytes long: layout choices
/// cannot arise, so the flat lengths simply add up.
#[verifier::rlimit(100)]
#[verifier::spinoff_prover]
pub proof fn lemma_flat_output(cmds: Seq<CmdV>, pos: nat, cind: nat, width: nat)
    requires
        forall|i: int|
            0 <= i < cmds.len() ==> (#[trigger] cmds[i]).mode is Flat && plain(cmds[i].doc),
    ensures
        text_width(best_spec(cmds, pos, cind, width)) == flat_sum(cmds),
    decreases cmds_weight(cmds),
{
    if cmds.len() == 0 {
        assert(best_spec(cmds, pos, cind, width) =~= Seq::<char>::empty());
        assert(encode_utf8(Seq::<char>::empty()) =~= Seq::<u8>::empty());
    } else {
        let c = cmds.last();
        let rest = cmds.drop_last();
        assert(c.mode is Flat && plain(c.doc)) by {
            assert(cmds[cmds.len() - 1] == c);
        }
        assert forall|i: int|
            0 <= i < rest.len() implies (#[trigger] rest[i]).mode is Flat && plain(
            rest[i].doc,
        ) by {
            assert(rest[i] == cmds[i]);
        }
        assert forall|c2: CmdV|
            cmds_weight(rest.push(c2)) == cmds_weight(rest) + weight(c2.doc) by {
            lemma_cmds_weight_push(rest, c2);
        }
        assert forall|c2: CmdV, c3: CmdV|
            cmds_weight(rest.push(c2).push(c3)) == cmds_weight(rest) + weight(c2.doc) + weight(
                c3.doc,
            ) by {
            lemma_cmds_weight_push(rest, c2);
            lemma_cmds_weight_push(rest.push(c2), c3);
        }
        assert forall|s: Seq<CmdV>, c2: CmdV, i: int|
            (forall|k: int| 0 <= k < s.len() ==> (#[trigger] s[k]).mode is Flat && plain(s[k].doc))
                && c2.mode is Flat && plain(c2.doc) && 0 <= i < s.push(c2).len() implies (
        #[trigger] s.push(c2)[i]).mode is Flat && plain(s.push(c2)[i].doc) by {
            if i < s.len() {
                assert(s.push(c2)[i] == s[i]);
            } else {
                assert(s.push(c2)[i] == c2);
            }
        }
        assert(cmds_weight(cmds) == weight(c.doc) + cmds_weight(rest));
        assert(flat_sum(cmds) == flat_len(c.doc, c.ind) + flat_sum(rest));
        let o = best_spec(cmds, pos, cind, width);
        match c.doc {
            DocV::Nil => {
                lemma_flat_output(rest, pos, cind, width);
                assert(o == best_spec(rest, pos, cind, width));
            }
            DocV::Append(l, r) => {
                let rc = CmdV { ind: c.ind, mode: c.mode, doc: *r };
                let lc = CmdV { ind: c.ind, mode: c.mode, doc: *l };
                assert(weight(c.doc) == 1 + weight(*l) + weight(*r));
                lemma_flat_output(rest.push(rc).push(lc), pos, cind, width);
                assert(o == best_spec(rest.push(rc).push(lc), pos, cind, width));
                lemma_flat_sum_push(rest, rc);
                lemma_flat_sum_push(rest.push(rc), lc);
            }
            DocV::Group(d) => {
                let fc = CmdV { ind: c.ind, mode: Mode::Flat, doc: *d };
                assert(weight(c.doc) == 1 + weight(*d));
                lemma_flat_output(rest.push(fc), pos, cind, width);
                assert(o == best_spec(rest.push(fc), pos, cind, width));
                lemma_flat_sum_push(rest, fc);
            }
            DocV::Nest(k, d) => {
                let dc = CmdV { ind: c.ind + k, mode: c.mode, doc: *d };
                assert(weight(c.doc) == 1 + k + weight(*d));
                lemma_flat_output(rest.push(dc), pos, cind, width);
                assert(o == best_spec(rest.push(dc), pos, cind, width));
                lemma_flat_sum_push(rest, dc);
            }
            DocV::Block(_k, _d) => {
                assert(false);
            }
            DocV::Space => {
                lemma_flat_output(rest, pos + 1, cind, width);
                assert(o == seq![' '] + best_spec(rest, pos + 1, cind, width));
                lemma_text_width_concat(seq![' '], best_spec(rest, pos + 1, cind, width));
                lemma_ascii_char_width(' ');
            }
            DocV::Newline => {
                lemma_flat_output(rest, c.ind, c.ind, width);
                assert(o == seq!['\n'] + pad(c.ind) + best_spec(rest, c.ind, c.ind, width));
                lemma_text_width_concat(seq!['\n'], pad(c.ind));
                lemma_text_width_concat(
                    seq!['\n'] + pad(c.ind),
                    best_spec(rest, c.ind, c.ind, width),
                );
                lemma_ascii_char_width('\n');
                lemma_pad_width(c.ind);
            }
            DocV::Text(s) => {
                lemma_flat_output(rest, pos + text_width(s), cind, width);
                assert(o == s + best_spec(rest, pos + text_width(s), cind, width));
                lemma_text_width_concat(s, best_spec(rest, pos + text_width(s), cind, width));
            }
            DocV::Annotated(d) => {
                let dc = CmdV { ind: c.ind, mode: c.mode, doc: *d };
                assert(weight(c.doc) == 1 + weight(*d));
                lemma_flat_output(rest.push(dc), pos, cind, width);
                assert(o == best_spec(rest.push(dc), pos, cind, width));
                lemma_flat_sum_push(rest, dc);
            }
            DocV::Union(_x, _y) => {
                assert(false);
            }
        }
    }
}

/// Flat-mode rendering of any `Union`- and `Block`-free subtree produces
/// output whose byte length is the sum of the byte lengths of its `Text`
/// leaves, plus one per `Space`, plus a line feed and the indent for
/// every `Newline` met.
pub proof fn lemma_flat_rendering_length(d: DocV, ind: nat, pos: nat, cind: nat, width: nat)
    requires
        plain(d),
    ensures
        text_width(
            best_spec(seq![CmdV { ind, mode: Mode::Flat, doc: d }], pos, cind, width),
        ) == flat_len(d, ind),
{
    let c = CmdV { ind, mode: Mode::Flat, doc: d };
    assert(seq![c][0] == c);
    lemma_flat_output(seq![c], pos, cind, width);
    assert(seq![c].drop_last() =~= Seq::<CmdV>::empty());
    assert(seq![c].last() == c);
    assert(flat_sum(Seq::<CmdV>::empty()) == 0);
    assert(flat_sum(seq![c]) == flat_len(d, ind));
}

/// One emission of the renderer: a text fragment, a single flat-mode
/// space, or a break: a line feed followed by exactly the pad of the
/// indent in force at that break.
pub enum EmitV {
    Text(Seq<char>),
    Space,
    Break(nat),
}

/// The characters of one emission.
pub open spec fn emit_str(e: EmitV) -> Seq<char> {
    match e {
        EmitV::Text(s) => s,
        EmitV::Space => seq![' '],
        EmitV::Break(k) => seq!['\n'] + pad(k),
    }
}

/// The characters of a sequence of emissions, in order.
pub open spec fn emits_str(es: Seq<EmitV>) -> Seq<char>
    decreases es.len(),
{
    if es.len() == 0 {
        Seq::empty()
    } else {
        emit_str(es.first()) + emits_str(es.drop_first())
    }
}

/// Every text emission is free of line breaks.
pub open spec fn emits_valid(es: Seq<EmitV>) -> bool {
    forall|i: int|
        0 <= i < es.len() ==> ((#[trigger] es[i]) matches EmitV::Text(s) ==>
        crate::pretty::doc::text_valid(s))
}

pub proof fn lemma_emits_str_prepend(e: EmitV, es: Seq<EmitV>)
    ensures
        emits_str(seq![e] + es) == emit_str(e) + emits_str(es),
{
    assert((seq![e] + es).len() == 1 + es.len());
    assert((seq![e] + es).first() == e);
    assert((seq![e] + es).drop_first() =~= es);
}

pub proof fn lemma_emits_valid_prepend(e: EmitV, es: Seq<EmitV>)
    requires
        emits_valid(es),
        e matches EmitV::Text(s) ==> crate::pretty::doc::text_valid(s),
    ensures
        emits_valid(seq![e] + es),
{
    assert forall|i: int| 0 <= i < (seq![e] + es).len() implies ((#[trigger] (seq![e] + es)[i])
        matches EmitV::Text(s) ==> crate::pretty::doc::text_valid(s)) by {
        if i == 0 {
            assert((seq![e] + es)[0] == e);
        } else {
            assert((seq![e] + es)[i] == es[i - 1]);
        }
    }
}

/// The machine's output is a concatenation of emissions: every line feed
/// it writes starts a break emission and is followed there by exactly
/// the pad of that break's indent; all other characters are flat spaces
/// or the documents' own line-break-free texts.
#[verifier::rlimit(100)]
#[verifier::spinoff_prover]
pub proof fn lemma_output_emissions(cmds: Seq<CmdV>, pos: nat, cind: nat, width: nat) -> (es: Seq<
    EmitV,
>)
    requires
        forall|i: int| 0 <= i < cmds.len() ==> crate::pretty::doc::doc_valid(
            (#[trigger] cmds[i]).doc,
        ),
    ensures
        emits_str(es) == best_spec(cmds, pos, cind, width),
        emits_valid(es),
    decreases cmds_weight(cmds),
{
    if cmds.len() == 0 {
        let es = Seq::<EmitV>::empty();
        assert(emits_str(es) =~= Seq::<char>::empty());
        es
    } else {
        let c = cmds.last();
        let rest = cmds.drop_last();
        assert(crate::pretty::doc::doc_valid(c.doc)) by {
            assert(cmds[cmds.len() - 1] == c);
        }
        assert forall|i: int| 0 <= i < rest.len() implies crate::pretty::doc::doc_valid(
            (#[trigger] rest[i]).doc,
        ) by {
            assert(rest[i] == cmds[i]);
        }
        assert forall|c2: CmdV|
            cmds_weight(rest.push(c2)) == cmds_weight(rest) + weight(c2.doc) by {
            lemma_cmds_weight_push(rest, c2);
        }
        assert forall|c2: CmdV, c3: CmdV|
            cmds_weight(rest.push(c2).push(c3)) == cmds_weight(rest) + weight(c2.doc) + weight(
                c3.doc,
            ) by {
            lemma_cmds_weight_push(rest, c2);
            lemma_cmds_weight_push(rest.push(c2), c3);
        }
        assert forall|s: Seq<CmdV>, c2: CmdV, i: int|
            (forall|k: int|
                0 <= k < s.len() ==> crate::pretty::doc::doc_valid((#[trigger] s[k]).doc))
                && crate::pretty::doc::doc_valid(c2.doc) && 0 <= i < s.push(c2).len()
            implies crate::pretty::doc::doc_valid((#[trigger] s.push(c2)[i]).doc) by {
            if i < s.len() {
                assert(s.push(c2)[i] == s[i]);
            } else {
                assert(s.push(c2)[i] == c2);
            }
        }
        assert(cmds_weight(cmds) == weight(c.doc) + cmds_weight(rest));
        let o = best_spec(cmds, pos, cind, width);
        match c.doc {
            DocV::Nil => {
                let es = lemma_output_emissions(rest, pos, cind, width);
                assert(o == best_spec(rest, pos, cind, width));
                es
            }
            DocV::Append(l, r) => {
                let rc = CmdV { ind: c.ind, mode: c.mode, doc: *r };
                let lc = CmdV { ind: c.ind, mode: c.mode, doc: *l };
                assert(weight(c.doc) == 1 + weight(*l) + weight(*r));
                let es = lemma_output_emissions(rest.push(rc).push(lc), pos, cind, width);
                assert(o == best_spec(rest.push(rc).push(lc), pos, cind, width));
                es
            }
            DocV::Group(d) => {
                let fc = CmdV { ind: c.ind, mode: Mode::Flat, doc: *d };
                let bc = CmdV { ind: c.ind, mode: Mode::Break, doc: *d };
                assert(weight(c.doc) == 1 + weight(*d));
                match c.mode {
                    Mode::Flat => {
                        let es = lemma_output_emissions(rest.push(fc), pos, cind, width);
                        assert(o == best_spec(rest.push(fc), pos, cind, width));
                        es
                    }
                    Mode::Break => {
                        if fitting_spec(seq![fc], rest, width - pos) {
                            let es = lemma_output_emissions(rest.push(fc), pos, cind, width);
                            assert(o == best_spec(rest.push(fc), pos, cind, width));
                            es
                        } else {
                            let es = lemma_output_emissions(rest.push(bc), pos, cind, width);
                            assert(o == best_spec(rest.push(bc), pos, cind, width));
                            es
                        }
                    }
                }
            }
            DocV::Nest(k, d) => {
                let dc = CmdV { ind: c.ind + k, mode: c.mode, doc: *d };
                assert(weight(c.doc) == 1 + k + weight(*d));
                let es = lemma_output_emissions(rest.push(dc), pos, cind, width);
                assert(o == best_spec(rest.push(dc), pos, cind, width));
                es
            }
            DocV::Block(k, d) => {
                let ni = if c.ind == cind {
                    c.ind + k
                } else {
                    c.ind
                };
                let dc = CmdV { ind: ni, mode: c.mode, doc: *d };
                assert(weight(c.doc) == 1 + k + weight(*d));
                let es = lemma_output_emissions(rest.push(dc), pos, cind, width);
                assert(o == best_spec(rest.push(dc), pos, cind, width));
                es
            }
            DocV::Space => {
                match c.mode {
                    Mode::Flat => {
                        let tail = lemma_output_emissions(rest, pos + 1, cind, width);
                        assert(o == seq![' '] + best_spec(rest, pos + 1, cind, width));
                        let es = seq![EmitV::Space] + tail;
                        lemma_emits_str_prepend(EmitV::Space, tail);
                        lemma_emits_valid_prepend(EmitV::Space, tail);
                        es
                    }
                    Mode::Break => {
                        let tail = lemma_output_emissions(rest, c.ind, c.ind, width);
                        assert(o == seq!['\n'] + pad(c.ind) + best_spec(
                            rest,
                            c.ind,
                            c.ind,
                            width,
                        ));
                        let es = seq![EmitV::Break(c.ind)] + tail;
                        lemma_emits_str_prepend(EmitV::Break(c.ind), tail);
                        lemma_emits_valid_prepend(EmitV::Break(c.ind), tail);
                        es
                    }
                }
            }
            DocV::Newline => {
                let tail = lemma_output_emissions(rest, c.ind, c.ind, width);
                assert(o == seq!['\n'] + pad(c.ind) + best_spec(rest, c.ind, c.ind, width));
                let es = seq![EmitV::Break(c.ind)] + tail;
                lemma_emits_str_prepend(EmitV::Break(c.ind), tail);
                lemma_emits_valid_prepend(EmitV::Break(c.ind), tail);
                es
            }
            DocV::Text(s) => {
                let tail = lemma_output_emissions(rest, pos + text_width(s), cind, width);
                assert(o == s + best_spec(rest, pos + text_width(s), cind, width));
                let es = seq![EmitV::Text(s)] + tail;
                lemma_emits_str_prepend(EmitV::Text(s), tail);
                lemma_emits_valid_prepend(EmitV::Text(s), tail);
                es
            }
            DocV::Annotated(d) => {
                let dc = CmdV { ind: c.ind, mode: c.mode, doc: *d };
                assert(weight(c.doc) == 1 + weight(*d));
                let es = lemma_output_emissions(rest.push(dc), pos, cind, width);
                assert(o == best_spec(rest.push(dc), pos, cind, width));
                es
            }
            DocV::Union(x, y) => {
                let fc = CmdV { ind: c.ind, mode: Mode::Flat, doc: *x };
                let yc = CmdV { ind: c.ind, mode: c.mode, doc: *y };
                assert(weight(c.doc) == 1 + weight(*x) + weight(*y));
                if fitting_spec(seq![fc], rest, width - pos) {
                    let es = lemma_output_emissions(rest.push(fc), pos, cind, width);
                    assert(o == best_spec(rest.push(fc), pos, cind, width));
                    es
                } else {
                    let es = lemma_output_emissions(rest.push(yc), pos, cind, width);
                    assert(o == best_spec(rest.push(yc), pos, cind, width));
                    es
                }
            }
        }
    }
}

/// Every line feed in the rendered output of a valid document is
/// immediately followed by exactly the pad of the indent in force at its
/// break: the whole output is a concatenation of emissions, a line feed
/// enters it only at the head of a break emission `'\n' + pad(k)`, and
/// no text emission contains a line break.
pub proof fn lemma_rendered_emissions(d: DocV, width: nat) -> (es: Seq<EmitV>)
    requires
        crate::pretty::doc::doc_valid(d),
    ensures
        emits_str(es) == rendered(d, width),
        emits_valid(es),
{
    let c = CmdV { ind: 0, mode: Mode::Break, doc: d };
    assert(seq![c][0] == c);
    lemma_output_emissions(seq![c], 0, 0, width)
}

} // verus!
