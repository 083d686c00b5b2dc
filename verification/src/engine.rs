//! The evaluation engine: lowers a syntax tree into the document tree.
//!
//! Raw text runs are projected into spans by one of three text processors:
//! the inline processor collapses whitespace runs to single spaces, the
//! preserving processor keeps text as it is (after dropping leading
//! newlines), and the top-level processor additionally recognizes
//! paragraph breaks (two or more consecutive newlines).
//!
//! At the top level the engine folds the stream into [`RootSpan`]s
//! ([`root_spans`]) and then assembles those into blocks ([`root`]),
//! merging adjacent text runs and never emitting an empty paragraph.

use vstd::prelude::*;

use crate::chars::is_white;
use crate::chars::lemma_nl_end;
use crate::chars::lemma_nnws_end;
use crate::chars::lemma_word_end;
use crate::chars::lemma_ws_end;
use crate::chars::nl_end;
use crate::chars::nnws_end;
use crate::chars::scan_nl_end;
use crate::chars::scan_nnws_end;
use crate::chars::scan_word_end;
use crate::chars::scan_ws_end;
use crate::chars::white;
use crate::chars::word_end;
use crate::chars::ws_end;
use crate::commands::RsState;
use crate::commands::element_spans_spec;
use crate::commands::pall;
use crate::commands::process_all_spec;
use crate::commands::root_spans_spec;
use crate::commands::rs_fold;
use crate::document::Block;
use crate::document::BlockFormat;
use crate::document::BlockFormatModel;
use crate::document::Metadata;
use crate::document::MetadataModel;
use crate::document::Span;
use crate::document::SpanFormat;
use crate::document::SpanFormatModel;
use crate::document::SpanModel;
use crate::document::lemma_spans_model;
use crate::document::lemma_spans_model_push;
use crate::document::spans_model;
use crate::parser::Element;
use crate::parser::stream_model;

verus! {

/// A fatal evaluation failure.
#[derive(Clone, Copy, Debug, PartialEq, Eq, Structural)]
pub enum EngineError {
    /// A metadata command's content could not be reduced to raw text.
    MetadataNonTextContent,
    /// A command lacked a required parameter, like `\link` without `to`.
    MissingRequiredParam,
}

/// Which text processor projects raw runs into spans.
#[derive(Clone, Copy, Debug, PartialEq, Eq, Structural)]
pub enum ProcMode {
    /// Collapse any whitespace run to a single space.
    Inline,
    /// Keep the text unchanged, after dropping leading newlines.
    Preserve,
}

/// An intermediate node of the top-level evaluation, flattened into blocks
/// by [`root`].
#[derive(Debug)]
pub enum RootSpan {
    /// A top-level text run.
    Text(String),
    /// A complete block emitted by a command.
    Block(BlockFormat, Vec<Span>),
    /// An inline format emitted by a command.
    Format(SpanFormat, Vec<Span>),
    /// A paragraph boundary.
    ParagraphBreak,
    /// A forced line break.
    LineBreak,
}

/// Mathematical model of a root span.
pub enum RootSpanModel {
    Text(Seq<char>),
    Block(BlockFormatModel, Seq<SpanModel>),
    Format(SpanFormatModel, Seq<SpanModel>),
    ParagraphBreak,
    LineBreak,
}

impl RootSpan {
    pub open spec fn model(self) -> RootSpanModel
        decreases self,
    {
        match self {
            RootSpan::Text(t) => RootSpanModel::Text(t@),
            RootSpan::Block(f, s) => RootSpanModel::Block(f.model(), spans_model(s@)),
            RootSpan::Format(f, s) => RootSpanModel::Format(f.model(), spans_model(s@)),
            RootSpan::ParagraphBreak => RootSpanModel::ParagraphBreak,
            RootSpan::LineBreak => RootSpanModel::LineBreak,
        }
    }
}

impl View for RootSpan {
    type V = RootSpanModel;

    open spec fn view(&self) -> RootSpanModel {
        self.model()
    }
}

/// The model of a root-span list.
pub open spec fn rootspans_model(s: Seq<RootSpan>) -> Seq<RootSpanModel>
    decreases s,
{
    if s.len() == 0 {
        Seq::empty()
    } else {
        seq![s[0].model()] + rootspans_model(s.subrange(1, s.len() as int))
    }
}

/// `rootspans_model` is the element-wise model of the list.
pub broadcast proof fn lemma_rootspans_model(s: Seq<RootSpan>)
    ensures
        (#[trigger] rootspans_model(s)).len() == s.len(),
        forall|i: int| 0 <= i < s.len() ==> rootspans_model(s)[i] == s[i].model(),
    decreases s.len(),
{
    if s.len() > 0 {
        lemma_rootspans_model(s.subrange(1, s.len() as int));
    }
}

/// Appending one root span on the right extends the model.
pub proof fn lemma_rootspans_model_push(v: Seq<RootSpan>, e: RootSpan)
    ensures
        rootspans_model(v.push(e)) == rootspans_model(v) + seq![e.model()],
{
    broadcast use lemma_rootspans_model;

    assert(rootspans_model(v.push(e)) =~= rootspans_model(v) + seq![e.model()]);
}

/// What the inline processor makes of the text from `pos` on: words are
/// kept, every whitespace run becomes a single space.
pub open spec fn inline_pieces(t: Seq<char>, pos: int) -> Seq<SpanModel>
    decreases t.len() - pos
        when 0 <= pos <= t.len()
{
    if pos == t.len() {
        Seq::empty()
    } else if white(t[pos]) {
        let e = if ws_end(t, pos) <= pos {
            pos + 1
        } else if ws_end(t, pos) > t.len() {
            t.len() as int
        } else {
            ws_end(t, pos)
        };
        seq![SpanModel::Text(seq![' '])] + inline_pieces(t, e)
    } else {
        let e = if word_end(t, pos) <= pos {
            pos + 1
        } else if word_end(t, pos) > t.len() {
            t.len() as int
        } else {
            word_end(t, pos)
        };
        seq![SpanModel::Text(t.subrange(pos, e))] + inline_pieces(t, e)
    }
}

/// What the preserving processor makes of the text: one text span holding
/// everything after the leading newlines.
pub open spec fn preserve_pieces(t: Seq<char>) -> Seq<SpanModel> {
    let k = nl_end(t, 0);
    seq![SpanModel::Text(t.subrange(if 0 <= k <= t.len() { k } else { 0 }, t.len() as int))]
}

/// Whether a paragraph break (two consecutive newlines) starts at `pos`.
pub open spec fn pbreak_at(t: Seq<char>, pos: int) -> bool {
    pos + 1 < t.len() && t[pos] == '\n' && t[pos + 1] == '\n'
}

/// One top-level text chunk: the collapsed text from `pos` up to the next
/// paragraph break or the end, and the position where it stops.
///
/// Words are kept; a run of non-newline whitespace, or a lone newline,
/// becomes one space each.
pub open spec fn tl_chunk(t: Seq<char>, pos: int) -> (int, Seq<char>)
    decreases t.len() - pos, 0int,
        when 0 <= pos <= t.len()
{
    if pos == t.len() || pbreak_at(t, pos) {
        (pos, Seq::empty())
    } else if t[pos] == '\n' {
        let r = tl_chunk(t, pos + 1);
        (r.0, seq![' '] + r.1)
    } else if white(t[pos]) {
        let e = if nnws_end(t, pos) <= pos {
            pos + 1
        } else if nnws_end(t, pos) > t.len() {
            t.len() as int
        } else {
            nnws_end(t, pos)
        };
        let r = tl_chunk(t, e);
        (r.0, seq![' '] + r.1)
    } else {
        let e = if word_end(t, pos) <= pos {
            pos + 1
        } else if word_end(t, pos) > t.len() {
            t.len() as int
        } else {
            word_end(t, pos)
        };
        let r = tl_chunk(t, e);
        (r.0, t.subrange(pos, e) + r.1)
    }
}

/// The chunk stops between `pos` and the end of the text, and moves at
/// least one character unless it starts on a break or the end.
pub proof fn lemma_tl_chunk_bounds(t: Seq<char>, pos: int)
    requires
        0 <= pos <= t.len(),
    ensures
        pos <= tl_chunk(t, pos).0 <= t.len(),
        !(pos == t.len() || pbreak_at(t, pos)) ==> tl_chunk(t, pos).0 > pos,
    decreases t.len() - pos,
{
    if pos == t.len() || pbreak_at(t, pos) {
    } else if t[pos] == '\n' {
        lemma_tl_chunk_bounds(t, pos + 1);
    } else if white(t[pos]) {
        let e = if nnws_end(t, pos) <= pos {
            pos + 1
        } else if nnws_end(t, pos) > t.len() {
            t.len() as int
        } else {
            nnws_end(t, pos)
        };
        lemma_tl_chunk_bounds(t, e);
    } else {
        let e = if word_end(t, pos) <= pos {
            pos + 1
        } else if word_end(t, pos) > t.len() {
            t.len() as int
        } else {
            word_end(t, pos)
        };
        lemma_tl_chunk_bounds(t, e);
    }
}

/// The top-level tokens of the text from `pos` on: paragraph breaks and
/// collapsed text chunks.
pub open spec fn tl_tokens(t: Seq<char>, pos: int) -> Seq<RootSpanModel>
    decreases t.len() - pos, 1int,
        when 0 <= pos <= t.len()
{
    if pos == t.len() {
        Seq::empty()
    } else if pbreak_at(t, pos) {
        let e = if nl_end(t, pos) <= pos + 2 {
            pos + 2
        } else if nl_end(t, pos) > t.len() {
            t.len() as int
        } else {
            nl_end(t, pos)
        };
        seq![RootSpanModel::ParagraphBreak] + tl_tokens(t, e)
    } else {
        let r = tl_chunk(t, pos);
        let e = if r.0 <= pos {
            pos + 1
        } else if r.0 > t.len() {
            t.len() as int
        } else {
            r.0
        };
        seq![RootSpanModel::Text(r.1)] + tl_tokens(t, e)
    }
}

/// What the top-level processor makes of a text run: its tokens, with a
/// leading paragraph break dropped.
pub open spec fn toplevel_text_spec(t: Seq<char>) -> Seq<RootSpanModel> {
    if pbreak_at(t, 0) {
        let e = nl_end(t, 0);
        tl_tokens(t, if 0 <= e <= t.len() { e } else { 0 })
    } else {
        tl_tokens(t, 0)
    }
}

/// The inline text processor: every whitespace run becomes one space.
pub fn inline_process(t: &str) -> (r: Vec<Span>)
    ensures
        spans_model(r@) == inline_pieces(t@, 0),
{
    let n = t.unicode_len();
    let mut acc: Vec<Span> = Vec::new();
    let mut cur: usize = 0;
    proof {
        assert(spans_model(acc@) =~= Seq::<SpanModel>::empty());
    }
    loop
        invariant
            cur <= n,
            n == t@.len(),
            inline_pieces(t@, 0) == spans_model(acc@) + inline_pieces(t@, cur as int),
        ensures
            cur == n,
            inline_pieces(t@, 0) == spans_model(acc@),
        decreases n - cur,
    {
        if cur == n {
            proof {
                assert(spans_model(acc@) + Seq::<SpanModel>::empty() =~= spans_model(acc@));
            }
            break;
        }
        let piece: Span;
        let e: usize;
        if is_white(t.get_char(cur)) {
            e = scan_ws_end(t, n, cur);
            proof {
                lemma_ws_end(t@, cur as int);
                assert(ws_end(t@, cur as int) > cur as int);
            }
            let mut sp = String::new();
            sp.append(" ");
            proof {
                reveal_strlit(" ");
                assert(sp@ =~= seq![' ']);
            }
            piece = Span::Text(sp);
        } else {
            e = scan_word_end(t, n, cur);
            proof {
                lemma_word_end(t@, cur as int);
                assert(word_end(t@, cur as int) > cur as int);
            }
            piece = Span::Text(t.substring_char(cur, e).to_owned());
        }
        let ghost old_acc = acc@;
        acc.push(piece);
        proof {
            lemma_spans_model_push(old_acc, piece);
            assert(spans_model(old_acc) + (seq![piece.model()] + inline_pieces(t@, e as int))
                =~= spans_model(acc@) + inline_pieces(t@, e as int));
        }
        cur = e;
    }
    acc
}

/// The preserving text processor: drops leading newlines, keeps the rest.
pub fn preserve_process(t: &str) -> (r: Vec<Span>)
    ensures
        spans_model(r@) == preserve_pieces(t@),
{
    let n = t.unicode_len();
    let k = scan_nl_end(t, n, 0);
    let piece = Span::Text(t.substring_char(k, n).to_owned());
    let mut acc: Vec<Span> = Vec::new();
    acc.push(piece);
    proof {
        broadcast use lemma_spans_model;

        assert(spans_model(acc@) =~= seq![piece.model()]);
    }
    acc
}

/// The top-level text processor: splits a text run into paragraph breaks
/// and collapsed text chunks, dropping a leading break.
pub fn toplevel_text(t: &str) -> (r: Vec<RootSpan>)
    ensures
        rootspans_model(r@) == toplevel_text_spec(t@),
{
    let n = t.unicode_len();
    let mut acc: Vec<RootSpan> = Vec::new();
    let mut cur: usize = 0;
    if n >= 2 && t.get_char(0) == '\n' && t.get_char(1) == '\n' {
        cur = scan_nl_end(t, n, 0);
    }
    proof {
        assert(rootspans_model(acc@) =~= Seq::<RootSpanModel>::empty());
        assert(toplevel_text_spec(t@) == tl_tokens(t@, cur as int));
    }
    loop
        invariant
            cur <= n,
            n == t@.len(),
            toplevel_text_spec(t@) == rootspans_model(acc@) + tl_tokens(t@, cur as int),
        ensures
            toplevel_text_spec(t@) == rootspans_model(acc@),
        decreases n - cur,
    {
        if cur == n {
            proof {
                assert(rootspans_model(acc@) + Seq::<RootSpanModel>::empty() =~= rootspans_model(
                    acc@,
                ));
            }
            break;
        }
        let is_pb = cur + 1 < n && t.get_char(cur) == '\n' && t.get_char(cur + 1) == '\n';
        if is_pb {
            let e = scan_nl_end(t, n, cur);
            proof {
                lemma_nl_end(t@, cur as int);
                assert(nl_end(t@, cur as int) == nl_end(t@, cur as int + 1));
                assert(nl_end(t@, cur as int + 1) == nl_end(t@, cur as int + 2));
                lemma_nl_end(t@, cur as int + 2);
                assert(nl_end(t@, cur as int) >= cur as int + 2);
            }
            let ghost old_acc = acc@;
            acc.push(RootSpan::ParagraphBreak);
            proof {
                lemma_rootspans_model_push(old_acc, RootSpan::ParagraphBreak);
                assert(rootspans_model(old_acc) + (seq![RootSpanModel::ParagraphBreak] + tl_tokens(
                    t@,
                    e as int,
                )) =~= rootspans_model(acc@) + tl_tokens(t@, e as int));
            }
            cur = e;
        } else {
            let (e, txt) = tl_chunk_exec(t, n, cur);
            proof {
                lemma_tl_chunk_bounds(t@, cur as int);
            }
            let el = RootSpan::Text(txt);
            let ghost old_acc = acc@;
            acc.push(el);
            proof {
                lemma_rootspans_model_push(old_acc, el);
                assert(rootspans_model(old_acc) + (seq![el.model()] + tl_tokens(t@, e as int))
                    =~= rootspans_model(acc@) + tl_tokens(t@, e as int));
            }
            cur = e;
        }
    }
    acc
}

/// Concatenating span lists concatenates their models.
pub proof fn lemma_spans_model_concat(a: Seq<Span>, b: Seq<Span>)
    ensures
        spans_model(a + b) == spans_model(a) + spans_model(b),
{
    broadcast use lemma_spans_model;

    assert(spans_model(a + b) =~= spans_model(a) + spans_model(b));
}

/// Concatenating root-span lists concatenates their models.
pub proof fn lemma_rootspans_model_concat(a: Seq<RootSpan>, b: Seq<RootSpan>)
    ensures
        rootspans_model(a + b) == rootspans_model(a) + rootspans_model(b),
{
    broadcast use lemma_rootspans_model;

    assert(rootspans_model(a + b) =~= rootspans_model(a) + rootspans_model(b));
}

/// Projects one element into spans: raw runs go through the processor for
/// `mode`, comments vanish, line breaks stay, commands run.
fn element(el: &Element, mode: ProcMode) -> (r: Result<Vec<Span>, EngineError>)
    ensures
        match r {
            Ok(v) => element_spans_spec(el@, mode) == Ok::<_, EngineError>(spans_model(v@)),
            Err(e) => element_spans_spec(el@, mode) == Err::<Seq<SpanModel>, _>(e),
        },
    decreases el, 1int,
{
    match el {
        Element::Raw(t) => {
            let v = match mode {
                ProcMode::Inline => inline_process(t.as_str()),
                ProcMode::Preserve => preserve_process(t.as_str()),
            };
            Ok(v)
        },
        Element::Comment(_) => {
            let v: Vec<Span> = Vec::new();
            proof {
                assert(spans_model(v@) =~= Seq::<SpanModel>::empty());
            }
            Ok(v)
        },
        Element::LineBreak => {
            let mut v: Vec<Span> = Vec::new();
            v.push(Span::LineBreak);
            proof {
                broadcast use lemma_spans_model;

                assert(spans_model(v@) =~= seq![SpanModel::LineBreak]);
            }
            Ok(v)
        },
        Element::Command(c) => crate::commands::run(c),
    }
}

/// Projects a whole stream into spans with the processor for `mode`; the
/// result is the concatenation of every element's spans.
pub fn process_all(s: &Vec<Element>, mode: ProcMode) -> (r: Result<Vec<Span>, EngineError>)
    ensures
        match r {
            Ok(v) => process_all_spec(stream_model(s@), mode) == Ok::<_, EngineError>(
                spans_model(v@),
            ),
            Err(e) => process_all_spec(stream_model(s@), mode) == Err::<Seq<SpanModel>, _>(e),
        },
    decreases s, 0int,
{
    let ghost sm = stream_model(s@);
    let mut acc: Vec<Span> = Vec::new();
    let mut i: usize = 0;
    proof {
        broadcast use crate::parser::lemma_stream_model;

        assert(spans_model(acc@) =~= Seq::<SpanModel>::empty());
    }
    while i < s.len()
        invariant
            i <= s@.len(),
            sm == stream_model(s@),
            sm.len() == s@.len(),
            match pall(sm, i as int, mode) {
                Ok(rest) => pall(sm, 0, mode) == Ok::<_, EngineError>(spans_model(acc@) + rest),
                Err(e) => pall(sm, 0, mode) == Err::<Seq<SpanModel>, _>(e),
            },
        decreases s@.len() - i,
    {
        proof {
            broadcast use crate::parser::lemma_stream_model;

        }
        match element(&s[i], mode) {
            Err(e) => {
                return Err(e);
            },
            Ok(mut v) => {
                let ghost old_acc = acc@;
                let ghost vseq = v@;
                let ghost first = spans_model(v@);
                acc.append(&mut v);
                proof {
                    lemma_spans_model_concat(old_acc, vseq);
                    match pall(sm, i as int + 1, mode) {
                        Ok(rest2) => {
                            assert(spans_model(old_acc) + (first + rest2) =~= spans_model(acc@)
                                + rest2);
                        },
                        Err(_) => {},
                    }
                }
            },
        }
        i = i + 1;
    }
    proof {
        assert(spans_model(acc@) + Seq::<SpanModel>::empty() =~= spans_model(acc@));
    }
    Ok(acc)
}

impl RootSpan {
    /// Lifts one inline span to the top level; a raw span becomes its own
    /// raw block.
    pub fn from_span(s: Span) -> (r: RootSpan)
        ensures
            r@ == crate::commands::span_to_root(s@),
    {
        match s {
            Span::Text(t) => RootSpan::Text(t),
            Span::Format(f, inner) => RootSpan::Format(f, inner),
            Span::LineBreak => RootSpan::LineBreak,
            Span::Raw(rr) => {
                let mut inner: Vec<Span> = Vec::new();
                inner.push(Span::Raw(rr));
                proof {
                    broadcast use lemma_spans_model;

                    assert(spans_model(inner@) =~= seq![inner@[0].model()]);
                }
                RootSpan::Block(BlockFormat::Raw, inner)
            },
        }
    }
}

/// Evaluates a stream at the top level; see
/// [`crate::commands::root_spans_spec`].
///
/// Raw runs accumulate into text buffers that are flushed through the
/// top-level processor around commands that emit spans, and at the end.
/// Top-level commands may write to `metadata`.
pub fn root_spans(metadata: &mut Metadata, stream: &Vec<Element>) -> (r: Result<
    Vec<RootSpan>,
    EngineError,
>)
    ensures
        match r {
            Ok(v) => root_spans_spec(stream_model(stream@), old(metadata)@) == Ok::<
                _,
                EngineError,
            >((final(metadata)@, rootspans_model(v@))),
            Err(e) => root_spans_spec(stream_model(stream@), old(metadata)@) == Err::<
                (MetadataModel, Seq<RootSpanModel>),
                _,
            >(e),
        },
    decreases stream, 4int,
{
    let ghost sm = stream_model(stream@);
    let ghost m0 = old(metadata)@;
    let mut spans: Vec<RootSpan> = Vec::new();
    let mut text_acc = String::new();
    let mut i: usize = 0;
    proof {
        broadcast use crate::parser::lemma_stream_model;

        assert(sm.len() == stream@.len());
        assert(rootspans_model(spans@) =~= Seq::<RootSpanModel>::empty());
        assert(text_acc@ == Seq::<char>::empty());
        assert(metadata@ == m0);
    }
    while i < stream.len()
        invariant
            i <= stream@.len(),
            sm == stream_model(stream@),
            sm.len() == stream@.len(),
            m0 == old(metadata)@,
            rs_fold(
                sm,
                i as int,
                RsState { text: text_acc@, spans: rootspans_model(spans@), meta: metadata@ },
            ) == rs_fold(sm, 0, RsState { text: Seq::empty(), spans: Seq::empty(), meta: m0 }),
        decreases stream@.len() - i,
    {
        proof {
            broadcast use crate::parser::lemma_stream_model;

            assert(sm[i as int] == stream@[i as int].model());
        }
        let ghost st0 = RsState {
            text: text_acc@,
            spans: rootspans_model(spans@),
            meta: metadata@,
        };
        match &stream[i] {
            Element::Raw(t) => {
                text_acc.append(t.as_str());
                proof {
                    let st1 = RsState { text: st0.text + t@, ..st0 };
                    assert(rs_fold(sm, i as int, st0) == rs_fold(sm, i as int + 1, st1));
                    assert(RsState {
                        text: text_acc@,
                        spans: rootspans_model(spans@),
                        meta: metadata@,
                    } == st1);
                }
            },
            Element::Comment(_) => {
                proof {
                    assert(rs_fold(sm, i as int, st0) == rs_fold(sm, i as int + 1, st0));
                }
            },
            Element::LineBreak => {
                let ghost old_spans = spans@;
                spans.push(RootSpan::LineBreak);
                proof {
                    lemma_rootspans_model_push(old_spans, RootSpan::LineBreak);
                    let st1 = RsState {
                        spans: st0.spans.push(RootSpanModel::LineBreak),
                        ..st0
                    };
                    assert(rs_fold(sm, i as int, st0) == rs_fold(sm, i as int + 1, st1));
                    assert(rootspans_model(spans@) =~= st0.spans.push(RootSpanModel::LineBreak));
                    assert(RsState {
                        text: text_acc@,
                        spans: rootspans_model(spans@),
                        meta: metadata@,
                    } == st1);
                }
            },
            Element::Command(c) => {
                let mut res = match crate::commands::toplevel_run(metadata, c) {
                    Ok(x) => x,
                    Err(e) => {
                        proof {
                            assert(rs_fold(sm, i as int, st0) == Err::<RsState, EngineError>(e));
                        }
                        return Err(e);
                    },
                };
                proof {
                    broadcast use lemma_rootspans_model;

                    assert(rootspans_model(res@).len() == res@.len());
                }
                let ghost m2 = metadata@;
                let ghost res_m = rootspans_model(res@);
                let ghost res_seq = res@;
                if res.len() > 0 && !text_acc.as_str().is_empty() {
                    let mut toks = toplevel_text(text_acc.as_str());
                    let ghost spans_a = spans@;
                    let ghost toks_seq = toks@;
                    let ghost toks_m = rootspans_model(toks@);
                    spans.append(&mut toks);
                    spans.append(&mut res);
                    text_acc = String::new();
                    proof {
                        lemma_rootspans_model_concat(spans_a, toks_seq);
                        lemma_rootspans_model_concat(spans_a + toks_seq, res_seq);
                        assert(spans@ =~= (spans_a + toks_seq) + res_seq);
                        let st1 = RsState {
                            text: Seq::empty(),
                            spans: st0.spans + toplevel_text_spec(st0.text) + res_m,
                            meta: m2,
                        };
                        assert(rs_fold(sm, i as int, st0) == rs_fold(sm, i as int + 1, st1));
                        assert(rootspans_model(spans@) =~= st0.spans + toplevel_text_spec(st0.text)
                            + res_m);
                        assert(RsState {
                            text: text_acc@,
                            spans: rootspans_model(spans@),
                            meta: metadata@,
                        } == st1);
                    }
                } else {
                    let ghost spans_a = spans@;
                    spans.append(&mut res);
                    proof {
                        lemma_rootspans_model_concat(spans_a, res_seq);
                        assert(spans@ =~= spans_a + res_seq);
                        let st1 = RsState {
                            text: st0.text,
                            spans: st0.spans + res_m,
                            meta: m2,
                        };
                        assert(rs_fold(sm, i as int, st0) == rs_fold(sm, i as int + 1, st1));
                        assert(RsState {
                            text: text_acc@,
                            spans: rootspans_model(spans@),
                            meta: metadata@,
                        } == st1);
                    }
                }
            },
        }
        i = i + 1;
    }
    if !text_acc.as_str().is_empty() {
        let mut toks = toplevel_text(text_acc.as_str());
        let ghost spans_a = spans@;
        let ghost toks_seq = toks@;
        let ghost toks_m = rootspans_model(toks@);
        spans.append(&mut toks);
        proof {
            lemma_rootspans_model_concat(spans_a, toks_seq);
            assert(spans@ =~= spans_a + toks_seq);
            assert(rootspans_model(spans@) == rootspans_model(spans_a) + toks_m);
        }
    }
    Ok(spans)
}

/// The running state of the block assembler: the pending paragraph and the
/// finished outline.
pub struct RootState {
    pub para: Seq<SpanModel>,
    pub outline: Seq<crate::document::BlockModel>,
}

/// One step of the block assembler.
///
/// Text merges into a trailing text span; formats and line breaks join the
/// paragraph; a paragraph break flushes a non-empty paragraph; a block
/// flushes and then stands on its own.
pub open spec fn root_step(st: RootState, rs: RootSpanModel) -> RootState {
    match rs {
        RootSpanModel::Text(t) => {
            if st.para.len() > 0 && (st.para.last() matches SpanModel::Text(_)) {
                RootState {
                    para: st.para.drop_last().push(SpanModel::Text(st.para.last()->Text_0 + t)),
                    ..st
                }
            } else {
                RootState { para: st.para.push(SpanModel::Text(t)), ..st }
            }
        },
        RootSpanModel::Format(f, s) => RootState { para: st.para.push(SpanModel::Format(f, s)), ..st },
        RootSpanModel::LineBreak => RootState { para: st.para.push(SpanModel::LineBreak), ..st },
        RootSpanModel::ParagraphBreak => {
            if st.para.len() > 0 {
                RootState {
                    para: Seq::empty(),
                    outline: st.outline.push(
                        crate::document::BlockModel {
                            format: BlockFormatModel::Paragraph,
                            spans: st.para,
                        },
                    ),
                }
            } else {
                st
            }
        },
        RootSpanModel::Block(f, s) => {
            let o = if st.para.len() > 0 {
                st.outline.push(
                    crate::document::BlockModel {
                        format: BlockFormatModel::Paragraph,
                        spans: st.para,
                    },
                )
            } else {
                st.outline
            };
            RootState {
                para: Seq::empty(),
                outline: o.push(crate::document::BlockModel { format: f, spans: s }),
            }
        },
    }
}

/// The block assembler folded over the root spans `i..`.
pub open spec fn root_fold(spans: Seq<RootSpanModel>, i: int, st: RootState) -> RootState
    decreases spans.len() - i
        when 0 <= i <= spans.len()
{
    if i == spans.len() {
        st
    } else {
        root_fold(spans, i + 1, root_step(st, spans[i]))
    }
}

/// The outline assembled from a root-span sequence, with the final
/// paragraph flushed if it is not empty.
pub open spec fn root_blocks_spec(spans: Seq<RootSpanModel>) -> Seq<crate::document::BlockModel> {
    let st = root_fold(spans, 0, RootState { para: Seq::empty(), outline: Seq::empty() });
    if st.para.len() > 0 {
        st.outline.push(
            crate::document::BlockModel { format: BlockFormatModel::Paragraph, spans: st.para },
        )
    } else {
        st.outline
    }
}

/// The whole top-level evaluation: root spans assembled into blocks.
pub open spec fn root_spec(stream: Seq<crate::parser::ElementModel>, meta: MetadataModel) -> Result<
    (MetadataModel, Seq<crate::document::BlockModel>),
    EngineError,
> {
    match root_spans_spec(stream, meta) {
        Err(e) => Err(e),
        Ok((m2, spans)) => Ok((m2, root_blocks_spec(spans))),
    }
}

/// Evaluates a stream into the document outline; see [`root_spec`].
pub fn root(metadata: &mut Metadata, stream: &Vec<Element>) -> (r: Result<Vec<Block>, EngineError>)
    ensures
        match r {
            Ok(v) => root_spec(stream_model(stream@), old(metadata)@) == Ok::<_, EngineError>(
                (final(metadata)@, crate::document::blocks_model(v@)),
            ),
            Err(e) => root_spec(stream_model(stream@), old(metadata)@) == Err::<
                (MetadataModel, Seq<crate::document::BlockModel>),
                _,
            >(e),
        },
    decreases stream, 5int,
{
    let doc = match root_spans(metadata, stream) {
        Ok(x) => x,
        Err(e) => {
            return Err(e);
        },
    };
    let ghost full = rootspans_model(doc@);
    let mut rest = doc;
    let mut para: Vec<Span> = Vec::new();
    let mut outline: Vec<Block> = Vec::new();
    let ghost mut k: int = 0;
    proof {
        broadcast use lemma_rootspans_model;

        assert(rootspans_model(rest@) =~= full.subrange(0, full.len() as int));
        assert(spans_model(para@) =~= Seq::<SpanModel>::empty());
        assert(crate::document::blocks_model(outline@) =~= Seq::<
            crate::document::BlockModel,
        >::empty());
    }
    while rest.len() > 0
        invariant
            0 <= k <= full.len(),
            rootspans_model(rest@) == full.subrange(k, full.len() as int),
            root_fold(
                full,
                k,
                RootState {
                    para: spans_model(para@),
                    outline: crate::document::blocks_model(outline@),
                },
            ) == root_fold(full, 0, RootState { para: Seq::empty(), outline: Seq::empty() }),
        decreases rest@.len(),
    {
        proof {
            broadcast use lemma_rootspans_model;

            assert(full.subrange(k, full.len() as int).len() == rest@.len());
        }
        let ghost old_rest = rest@;
        let ghost st0 = RootState {
            para: spans_model(para@),
            outline: crate::document::blocks_model(outline@),
        };
        let rs = rest.remove(0);
        proof {
            broadcast use lemma_rootspans_model;

            assert(rootspans_model(old_rest)[0] == old_rest[0].model());
            assert(full.subrange(k, full.len() as int)[0] == full[k]);
            assert(rs.model() == full[k]);
            assert(rest@ =~= old_rest.subrange(1, old_rest.len() as int));
            assert forall|j: int| 0 <= j < rest@.len() implies #[trigger] rootspans_model(
                rest@,
            )[j] == full[k + 1 + j] by {
                assert(rest@[j] == old_rest[j + 1]);
                assert(rootspans_model(old_rest)[j + 1] == old_rest[j + 1].model());
                assert(rootspans_model(old_rest)[j + 1] == full.subrange(
                    k,
                    full.len() as int,
                )[j + 1]);
            }
            assert(rootspans_model(rest@) =~= full.subrange(k + 1, full.len() as int));
        }
        match rs {
            RootSpan::Text(t) => {
                let mut merged = false;
                if para.len() > 0 {
                    let ghost para0 = para@;
                    let last = para.pop();
                    match last {
                        Some(Span::Text(mut pt)) => {
                            let ghost prev = pt@;
                            pt.append(t.as_str());
                            para.push(Span::Text(pt));
                            merged = true;
                            proof {
                                broadcast use lemma_spans_model;

                                assert(spans_model(para0)[para0.len() - 1] == SpanModel::Text(
                                    prev,
                                ));
                                assert(st0.para.last() == SpanModel::Text(prev));
                                assert(spans_model(para@) =~= spans_model(para0).drop_last().push(
                                    SpanModel::Text(prev + t@),
                                ));
                            }
                        },
                        Some(other) => {
                            para.push(other);
                            proof {
                                broadcast use lemma_spans_model;

                                assert(spans_model(para@) =~= spans_model(para0));
                                assert(!(spans_model(para0).last() matches SpanModel::Text(_)));
                            }
                        },
                        None => {},
                    }
                }
                if !merged {
                    let ghost para1 = para@;
                    para.push(Span::Text(t));
                    proof {
                        crate::document::lemma_spans_model_push(para1, Span::Text(t));
                        assert(spans_model(para@) =~= st0.para.push(SpanModel::Text(t@)));
                    }
                }
                proof {
                    assert(RootState {
                        para: spans_model(para@),
                        outline: crate::document::blocks_model(outline@),
                    } == root_step(st0, full[k]));
                }
            },
            RootSpan::Format(f, s) => {
                let ghost para1 = para@;
                let sp = Span::Format(f, s);
                para.push(sp);
                proof {
                    crate::document::lemma_spans_model_push(para1, sp);
                    assert(spans_model(para@) =~= st0.para.push(sp.model()));
                    assert(RootState {
                        para: spans_model(para@),
                        outline: crate::document::blocks_model(outline@),
                    } == root_step(st0, full[k]));
                }
            },
            RootSpan::LineBreak => {
                let ghost para1 = para@;
                para.push(Span::LineBreak);
                proof {
                    crate::document::lemma_spans_model_push(para1, Span::LineBreak);
                    assert(spans_model(para@) =~= st0.para.push(SpanModel::LineBreak));
                    assert(RootState {
                        para: spans_model(para@),
                        outline: crate::document::blocks_model(outline@),
                    } == root_step(st0, full[k]));
                }
            },
            RootSpan::ParagraphBreak => {
                if para.len() > 0 {
                    let p = para;
                    para = Vec::new();
                    let ghost outline0 = outline@;
                    let b = Block(BlockFormat::Paragraph, p);
                    outline.push(b);
                    proof {
                        crate::document::lemma_blocks_model_push(outline0, b);
                        assert(spans_model(para@) =~= Seq::<SpanModel>::empty());
                        assert(crate::document::blocks_model(outline@) =~= st0.outline.push(
                            crate::document::BlockModel {
                                format: BlockFormatModel::Paragraph,
                                spans: st0.para,
                            },
                        ));
                    }
                }
                proof {
                    assert(RootState {
                        para: spans_model(para@),
                        outline: crate::document::blocks_model(outline@),
                    } == root_step(st0, full[k]));
                }
            },
            RootSpan::Block(f, s) => {
                let ghost flushed = if st0.para.len() > 0 {
                    st0.outline.push(
                        crate::document::BlockModel {
                            format: BlockFormatModel::Paragraph,
                            spans: st0.para,
                        },
                    )
                } else {
                    st0.outline
                };
                if para.len() > 0 {
                    let p = para;
                    para = Vec::new();
                    let ghost outline0 = outline@;
                    let b = Block(BlockFormat::Paragraph, p);
                    outline.push(b);
                    proof {
                        crate::document::lemma_blocks_model_push(outline0, b);
                        assert(crate::document::blocks_model(outline@) =~= flushed);
                    }
                }
                let ghost outline1 = outline@;
                let b2 = Block(f, s);
                outline.push(b2);
                proof {
                    crate::document::lemma_blocks_model_push(outline1, b2);
                    assert(spans_model(para@) =~= Seq::<SpanModel>::empty());
                    assert(crate::document::blocks_model(outline@) =~= flushed.push(b2.model()));
                    assert(RootState {
                        para: spans_model(para@),
                        outline: crate::document::blocks_model(outline@),
                    } == root_step(st0, full[k]));
                }
            },
        }
        proof {
            assert(root_fold(full, k, st0) == root_fold(full, k + 1, root_step(st0, full[k])));
            k = k + 1;
        }
    }
    let ghost st_end = RootState {
        para: spans_model(para@),
        outline: crate::document::blocks_model(outline@),
    };
    proof {
        assert(k == full.len());
        assert(root_fold(full, k, st_end) == st_end);
        assert(st_end == root_fold(full, 0, RootState { para: Seq::empty(), outline: Seq::empty() }));
    }
    if para.len() > 0 {
        let p = para;
        let ghost outline0 = outline@;
        let b = Block(BlockFormat::Paragraph, p);
        outline.push(b);
        proof {
            crate::document::lemma_blocks_model_push(outline0, b);
            assert(crate::document::blocks_model(outline@) =~= st_end.outline.push(
                crate::document::BlockModel {
                    format: BlockFormatModel::Paragraph,
                    spans: st_end.para,
                },
            ));
            assert(crate::document::blocks_model(outline@) == root_blocks_spec(full));
        }
    } else {
        proof {
            assert(crate::document::blocks_model(outline@) == root_blocks_spec(full));
        }
    }
    Ok(outline)
}

/// Structural soundness of one assembled block: a paragraph is never
/// empty and never holds adjacent text spans, and a heading's level lies
/// in 1 to 3.
pub open spec fn block_ok(b: crate::document::BlockModel) -> bool {
    &&& (b.format == BlockFormatModel::Paragraph ==> b.spans.len() > 0
        && crate::document::no_adjacent_texts(b.spans))
    &&& (match b.format {
        BlockFormatModel::Heading(l) => 1 <= l <= 3,
        _ => true,
    })
}

/// Every block of the list is structurally sound.
pub open spec fn blocks_ok(s: Seq<crate::document::BlockModel>) -> bool {
    forall|i: int| 0 <= i < s.len() ==> block_ok(#[trigger] s[i])
}

/// The block assembler keeps the outline sound and the pending paragraph
/// free of adjacent text spans.
proof fn lemma_root_fold_ok(spans: Seq<RootSpanModel>, i: int, st: RootState)
    requires
        0 <= i <= spans.len(),
        crate::commands::rootspans_ok(spans),
        blocks_ok(st.outline),
        crate::document::no_adjacent_texts(st.para),
    ensures
        blocks_ok(root_fold(spans, i, st).outline),
        crate::document::no_adjacent_texts(root_fold(spans, i, st).para),
    decreases spans.len() - i,
{
    if i < spans.len() {
        let st1 = root_step(st, spans[i]);
        assert(crate::commands::rootspan_ok(spans[i]));
        assert(blocks_ok(st1.outline) && crate::document::no_adjacent_texts(st1.para)) by {
            match spans[i] {
                RootSpanModel::Text(t) => {
                    if st.para.len() > 0 && (st.para.last() matches SpanModel::Text(_)) {
                        let p2 = st.para.drop_last().push(
                            SpanModel::Text(st.para.last()->Text_0 + t),
                        );
                        assert forall|j: int|
                            0 <= j && j + 1 < p2.len() implies !((#[trigger] p2[j]) is Text && p2[j
                            + 1] is Text) by {
                            if j + 2 < st.para.len() {
                                assert(p2[j] == st.para[j]);
                                assert(p2[j + 1] == st.para[j + 1]);
                            } else {
                                assert(p2[j] == st.para[j]);
                                assert(!(st.para[j] is Text));
                            }
                        }
                    } else {
                        let p2 = st.para.push(SpanModel::Text(t));
                        assert forall|j: int|
                            0 <= j && j + 1 < p2.len() implies !((#[trigger] p2[j]) is Text && p2[j
                            + 1] is Text) by {
                            if j + 1 < st.para.len() {
                                assert(p2[j] == st.para[j]);
                                assert(p2[j + 1] == st.para[j + 1]);
                            } else {
                                assert(p2[j] == st.para.last());
                            }
                        }
                    }
                },
                RootSpanModel::Format(f, s) => {
                    let p2 = st.para.push(SpanModel::Format(f, s));
                    assert forall|j: int|
                        0 <= j && j + 1 < p2.len() implies !((#[trigger] p2[j]) is Text && p2[j
                        + 1] is Text) by {
                        if j + 1 < st.para.len() {
                            assert(p2[j] == st.para[j]);
                            assert(p2[j + 1] == st.para[j + 1]);
                        }
                    }
                },
                RootSpanModel::LineBreak => {
                    let p2 = st.para.push(SpanModel::LineBreak);
                    assert forall|j: int|
                        0 <= j && j + 1 < p2.len() implies !((#[trigger] p2[j]) is Text && p2[j
                        + 1] is Text) by {
                        if j + 1 < st.para.len() {
                            assert(p2[j] == st.para[j]);
                            assert(p2[j + 1] == st.para[j + 1]);
                        }
                    }
                },
                RootSpanModel::ParagraphBreak => {
                    if st.para.len() > 0 {
                        let flushed = crate::document::BlockModel {
                            format: BlockFormatModel::Paragraph,
                            spans: st.para,
                        };
                        assert(block_ok(flushed));
                        assert forall|j: int|
                            0 <= j < st1.outline.len() implies block_ok(
                            #[trigger] st1.outline[j],
                        ) by {
                            if j < st.outline.len() {
                                assert(st1.outline[j] == st.outline[j]);
                            }
                        }
                    }
                },
                RootSpanModel::Block(f, s) => {
                    let o1 = if st.para.len() > 0 {
                        st.outline.push(
                            crate::document::BlockModel {
                                format: BlockFormatModel::Paragraph,
                                spans: st.para,
                            },
                        )
                    } else {
                        st.outline
                    };
                    assert forall|j: int| 0 <= j < o1.len() implies block_ok(
                        #[trigger] o1[j],
                    ) by {
                        if j < st.outline.len() {
                            assert(o1[j] == st.outline[j]);
                        }
                    }
                    assert(block_ok(crate::document::BlockModel { format: f, spans: s }));
                    assert forall|j: int| 0 <= j < st1.outline.len() implies block_ok(
                        #[trigger] st1.outline[j],
                    ) by {
                        if j < o1.len() {
                            assert(st1.outline[j] == o1[j]);
                        }
                    }
                },
            }
        }
        lemma_root_fold_ok(spans, i + 1, st1);
    }
}

/// Every block assembled from sound root spans is sound.
proof fn lemma_root_blocks_ok(spans: Seq<RootSpanModel>)
    requires
        crate::commands::rootspans_ok(spans),
    ensures
        blocks_ok(root_blocks_spec(spans)),
{
    let init = RootState { para: Seq::empty(), outline: Seq::empty() };
    lemma_root_fold_ok(spans, 0, init);
    let st = root_fold(spans, 0, init);
    if st.para.len() > 0 {
        let out = st.outline.push(
            crate::document::BlockModel { format: BlockFormatModel::Paragraph, spans: st.para },
        );
        assert forall|j: int| 0 <= j < out.len() implies block_ok(#[trigger] out[j]) by {
            if j < st.outline.len() {
                assert(out[j] == st.outline[j]);
            }
        }
    }
}

/// Soundness of a whole top-level evaluation: sound blocks, untouched
/// abstract slot.
pub proof fn lemma_root_spec_ok(stream: Seq<crate::parser::ElementModel>, meta: MetadataModel)
    ensures
        root_spec(stream, meta) matches Ok((m2, blocks)) ==> blocks_ok(blocks)
            && m2.abstract_blocks == meta.abstract_blocks,
{
    crate::commands::lemma_root_spans_ok(stream, meta);
    match root_spans_spec(stream, meta) {
        Err(_) => {},
        Ok((m2, spans)) => {
            lemma_root_blocks_ok(spans);
        },
    }
}

/// The assembler never emits an empty paragraph.
pub proof fn lemma_no_empty_paragraphs(stream: Seq<crate::parser::ElementModel>, meta: MetadataModel)
    ensures
        root_spec(stream, meta) matches Ok((m2, blocks)) ==> forall|i: int|
            0 <= i < blocks.len() && (#[trigger] blocks[i]).format == BlockFormatModel::Paragraph
                ==> blocks[i].spans.len() > 0,
{
    lemma_root_spec_ok(stream, meta);
}

/// After assembly, no paragraph holds two adjacent text spans: the merger
/// guarantee.
pub proof fn lemma_no_adjacent_texts(stream: Seq<crate::parser::ElementModel>, meta: MetadataModel)
    ensures
        root_spec(stream, meta) matches Ok((m2, blocks)) ==> forall|i: int|
            0 <= i < blocks.len() && (#[trigger] blocks[i]).format == BlockFormatModel::Paragraph
                ==> crate::document::no_adjacent_texts(blocks[i].spans),
{
    lemma_root_spec_ok(stream, meta);
}

/// Every heading in the assembled outline has a level in 1 to 3.
pub proof fn lemma_heading_levels(stream: Seq<crate::parser::ElementModel>, meta: MetadataModel)
    ensures
        root_spec(stream, meta) matches Ok((m2, blocks)) ==> forall|i: int|
            0 <= i < blocks.len() ==> match (#[trigger] blocks[i]).format {
                BlockFormatModel::Heading(l) => 1 <= l <= 3,
                _ => true,
            },
{
    lemma_root_spec_ok(stream, meta);
}

/// A strategy for projecting raw text runs into spans.
pub trait TextProcessor: Sized {
    fn process(t: &str) -> Vec<Span>;

    fn process_all(s: &Vec<Element>) -> Result<Vec<Span>, EngineError>;
}

/// The processor that collapses any whitespace run to a single space.
pub struct InlineTextProcessor;

impl TextProcessor for InlineTextProcessor {
    /// See [`inline_pieces`].
    fn process(t: &str) -> (r: Vec<Span>)
        ensures
            spans_model(r@) == inline_pieces(t@, 0),
    {
        inline_process(t)
    }

    /// See [`process_all_spec`] with [`ProcMode::Inline`].
    fn process_all(s: &Vec<Element>) -> (r: Result<Vec<Span>, EngineError>)
        ensures
            match r {
                Ok(v) => process_all_spec(stream_model(s@), ProcMode::Inline) == Ok::<
                    _,
                    EngineError,
                >(spans_model(v@)),
                Err(e) => process_all_spec(stream_model(s@), ProcMode::Inline) == Err::<
                    Seq<SpanModel>,
                    _,
                >(e),
            },
    {
        process_all(s, ProcMode::Inline)
    }
}

/// The processor that keeps text unchanged after dropping leading
/// newlines.
pub struct PreserveTextProcessor;

impl TextProcessor for PreserveTextProcessor {
    /// See [`preserve_pieces`].
    fn process(t: &str) -> (r: Vec<Span>)
        ensures
            spans_model(r@) == preserve_pieces(t@),
    {
        preserve_process(t)
    }

    /// See [`process_all_spec`] with [`ProcMode::Preserve`].
    fn process_all(s: &Vec<Element>) -> (r: Result<Vec<Span>, EngineError>)
        ensures
            match r {
                Ok(v) => process_all_spec(stream_model(s@), ProcMode::Preserve) == Ok::<
                    _,
                    EngineError,
                >(spans_model(v@)),
                Err(e) => process_all_spec(stream_model(s@), ProcMode::Preserve) == Err::<
                    Seq<SpanModel>,
                    _,
                >(e),
            },
    {
        process_all(s, ProcMode::Preserve)
    }
}

/// Collects one top-level text chunk starting at `cur`.
fn tl_chunk_exec(t: &str, n: usize, cur: usize) -> (r: (usize, String))
    requires
        cur <= n,
        n == t@.len(),
    ensures
        r.0 as int == tl_chunk(t@, cur as int).0,
        r.1@ == tl_chunk(t@, cur as int).1,
        cur <= r.0 <= n,
{
    let mut acc = String::new();
    let mut pos = cur;
    proof {
        assert(acc@ =~= Seq::<char>::empty());
    }
    loop
        invariant
            cur <= pos <= n,
            n == t@.len(),
            tl_chunk(t@, cur as int).0 == tl_chunk(t@, pos as int).0,
            tl_chunk(t@, cur as int).1 == acc@ + tl_chunk(t@, pos as int).1,
        ensures
            pos as int == tl_chunk(t@, cur as int).0,
            acc@ == tl_chunk(t@, cur as int).1,
            cur <= pos <= n,
        decreases n - pos,
    {
        if pos == n {
            proof {
                assert(acc@ + Seq::<char>::empty() =~= acc@);
            }
            break;
        }
        let is_pb = pos + 1 < n && t.get_char(pos) == '\n' && t.get_char(pos + 1) == '\n';
        if is_pb {
            proof {
                assert(acc@ + Seq::<char>::empty() =~= acc@);
            }
            break;
        }
        let c = t.get_char(pos);
        if c == '\n' {
            let ghost old_acc = acc@;
            acc.append(" ");
            proof {
                reveal_strlit(" ");
                assert(acc@ =~= old_acc + seq![' ']);
                assert(old_acc + (seq![' '] + tl_chunk(t@, pos as int + 1).1) =~= acc@ + tl_chunk(
                    t@,
                    pos as int + 1,
                ).1);
            }
            pos = pos + 1;
        } else if is_white(c) {
            let e = scan_nnws_end(t, n, pos);
            proof {
                lemma_nnws_end(t@, pos as int + 1);
                assert(nnws_end(t@, pos as int) > pos as int);
            }
            let ghost old_acc = acc@;
            acc.append(" ");
            proof {
                reveal_strlit(" ");
                assert(acc@ =~= old_acc + seq![' ']);
                assert(old_acc + (seq![' '] + tl_chunk(t@, e as int).1) =~= acc@ + tl_chunk(
                    t@,
                    e as int,
                ).1);
            }
            pos = e;
        } else {
            let e = scan_word_end(t, n, pos);
            proof {
                lemma_word_end(t@, pos as int);
                assert(word_end(t@, pos as int) > pos as int);
            }
            let ghost old_acc = acc@;
            acc.append(t.substring_char(pos, e));
            proof {
                assert(old_acc + (t@.subrange(pos as int, e as int) + tl_chunk(t@, e as int).1)
                    =~= acc@ + tl_chunk(t@, e as int).1);
            }
            pos = e;
        }
    }
    (pos, acc)
}

} // verus!
