//! The command registry: routes a parsed command to its handler.
//!
//! Two tables exist, both keyed by the command's local name and optional
//! namespace.  [`run`] dispatches inline commands (`code`, `strong`,
//! `link`, `raw`), which produce spans; [`toplevel_run`] first tries the
//! top-level table (`code`, `head1` to `head3`, `abstract`, and the
//! `meta:` family, which may write to the metadata record), then falls
//! back to the inline table, and finally recovers from an unknown command
//! by emitting a visible `[[unknown command NAME]]` placeholder.

use vstd::prelude::*;

use crate::chars::str_eq;
use crate::document::Metadata;
use crate::document::MetadataModel;
use crate::document::SpanFormatModel;
use crate::document::SpanModel;
use crate::document::Span;
use crate::document::BlockFormatModel;
use crate::document::split_trim_spec;
use crate::engine::EngineError;
use crate::engine::ProcMode;
use crate::engine::RootSpanModel;
use crate::engine::RootSpan;
use crate::engine::inline_pieces;
use crate::engine::preserve_pieces;
use crate::engine::rootspans_model;
use crate::engine::toplevel_text_spec;
use crate::parser::Command;
use crate::parser::CommandModel;
use crate::parser::ElementModel;
use crate::parser::Param;
use crate::parser::ParamModel;
use crate::parser::ParamValue;
use crate::parser::ParamValueModel;
use crate::parser::lemma_params_model;
use crate::parser::params_model;

pub mod inline;
pub mod toplevel;

verus! {

/// The displayable form of a command name: `ns:name` or just `name`.
pub open spec fn display_name_spec(name: Seq<char>, namespace: Option<Seq<char>>) -> Seq<char> {
    match namespace {
        Some(ns) => ns + seq![':'] + name,
        None => name,
    }
}

/// The visible scar left in place of an unknown command.
pub open spec fn placeholder_spec(name: Seq<char>, namespace: Option<Seq<char>>) -> Seq<char> {
    "[[unknown command "@ + display_name_spec(name, namespace) + "]]"@
}

/// The value of the named parameter; on repeated names the last one wins.
pub open spec fn param_lookup(params: Seq<ParamModel>, name: Seq<char>) -> Option<ParamValueModel>
    decreases params.len(),
{
    if params.len() == 0 {
        None
    } else if params.last().name == name {
        Some(params.last().value)
    } else {
        param_lookup(params.drop_last(), name)
    }
}

/// Whether the named parameter was given at all.
pub open spec fn has_param(params: Seq<ParamModel>, name: Seq<char>) -> bool {
    param_lookup(params, name) is Some
}

/// The names registered in the inline table.
pub open spec fn is_inline_name(name: Seq<char>, namespace: Option<Seq<char>>) -> bool {
    namespace is None && (name == "code"@ || name == "strong"@ || name == "link"@ || name
        == "raw"@)
}

/// The raw text of a stream, if it is made of raw runs alone.
pub open spec fn raw_concat_spec(s: Seq<ElementModel>) -> Option<Seq<char>>
    decreases s,
{
    if s.len() == 0 {
        Some(Seq::empty())
    } else {
        match s[0] {
            ElementModel::Raw(t) => match raw_concat_spec(s.subrange(1, s.len() as int)) {
                Some(r) => Some(t + r),
                None => None,
            },
            _ => None,
        }
    }
}

/// How a span of an inline command is lifted to the top level: raw spans
/// become their own raw block, everything else carries over.
pub open spec fn span_to_root(s: SpanModel) -> RootSpanModel {
    match s {
        SpanModel::Text(t) => RootSpanModel::Text(t),
        SpanModel::Format(f, inner) => RootSpanModel::Format(f, inner),
        SpanModel::LineBreak => RootSpanModel::LineBreak,
        SpanModel::Raw(r) => RootSpanModel::Block(BlockFormatModel::Raw, seq![SpanModel::Raw(r)]),
    }
}

/// Lifts every span of an inline command's result to the top level.
pub open spec fn roots_of_spans(s: Seq<SpanModel>) -> Seq<RootSpanModel> {
    Seq::new(s.len(), |i: int| span_to_root(s[i]))
}

/// What processing the elements `i..` of a stream yields: the
/// concatenation of every element's spans.
pub open spec fn pall(s: Seq<ElementModel>, i: int, mode: ProcMode) -> Result<
    Seq<SpanModel>,
    EngineError,
>
    decreases s, s.len() - i, 0int,
        when 0 <= i <= s.len()
{
    if i == s.len() {
        Ok(Seq::empty())
    } else {
        match element_spans_spec(s[i], mode) {
            Err(e) => Err(e),
            Ok(first) => match pall(s, i + 1, mode) {
                Err(e) => Err(e),
                Ok(rest) => Ok(first + rest),
            },
        }
    }
}

/// What processing a whole stream with the given text processor yields.
pub open spec fn process_all_spec(s: Seq<ElementModel>, mode: ProcMode) -> Result<
    Seq<SpanModel>,
    EngineError,
>
    decreases s, s.len() + 1, 0int,
{
    pall(s, 0, mode)
}

/// What one element yields: raw runs go through the text processor,
/// comments vanish, line breaks stay, commands run.
pub open spec fn element_spans_spec(el: ElementModel, mode: ProcMode) -> Result<
    Seq<SpanModel>,
    EngineError,
>
    decreases el, 0int, 1int,
{
    match el {
        ElementModel::Raw(t) => Ok(
            match mode {
                ProcMode::Inline => inline_pieces(t, 0),
                ProcMode::Preserve => preserve_pieces(t),
            },
        ),
        ElementModel::Comment(_) => Ok(Seq::empty()),
        ElementModel::LineBreak => Ok(seq![SpanModel::LineBreak]),
        ElementModel::Command(c) => run_spec(c),
    }
}

/// What the inline registry makes of a command.
///
/// `code` wraps preserved content, `strong` wraps inline content, `link`
/// requires a textual `to` parameter and notes a bare `blank` parameter,
/// `raw` takes the first preserved text verbatim (or nothing), and an
/// unknown name becomes a visible placeholder.
pub open spec fn run_spec(cmd: CommandModel) -> Result<Seq<SpanModel>, EngineError>
    decreases cmd, 0int, 2int,
{
    if cmd.namespace is None && cmd.name == "code"@ {
        match process_all_spec(cmd.content, ProcMode::Preserve) {
            Err(e) => Err(e),
            Ok(inner) => Ok(seq![SpanModel::Format(SpanFormatModel::Code, inner)]),
        }
    } else if cmd.namespace is None && cmd.name == "strong"@ {
        match process_all_spec(cmd.content, ProcMode::Inline) {
            Err(e) => Err(e),
            Ok(inner) => Ok(seq![SpanModel::Format(SpanFormatModel::Strong, inner)]),
        }
    } else if cmd.namespace is None && cmd.name == "link"@ {
        match process_all_spec(cmd.content, ProcMode::Inline) {
            Err(e) => Err(e),
            Ok(inner) => match param_lookup(cmd.params, "to"@) {
                Some(ParamValueModel::Text(t)) => Ok(
                    seq![
                        SpanModel::Format(
                            SpanFormatModel::Link {
                                to: t,
                                blank: has_param(cmd.params, "blank"@),
                            },
                            inner,
                        ),
                    ],
                ),
                _ => Err(EngineError::MissingRequiredParam),
            },
        }
    } else if cmd.namespace is None && cmd.name == "raw"@ {
        match process_all_spec(cmd.content, ProcMode::Preserve) {
            Err(e) => Err(e),
            Ok(inner) => if inner.len() > 0 && inner[0] is Text {
                Ok(seq![SpanModel::Raw(inner[0]->Text_0)])
            } else {
                Ok(Seq::empty())
            },
        }
    } else {
        Ok(seq![SpanModel::Text(placeholder_spec(cmd.name, cmd.namespace))])
    }
}

/// The running state of the top-level fold: the pending text run, the
/// root spans emitted so far, and the metadata.
pub struct RsState {
    pub text: Seq<char>,
    pub spans: Seq<RootSpanModel>,
    pub meta: MetadataModel,
}

/// What the top-level registry makes of a command.
///
/// The `meta:` family writes a metadata slot (its content must reduce to
/// raw text) and emits nothing; `code` becomes a code block (or inline
/// code outside the block form); `head1` to `head3` become headings;
/// `abstract` is evaluated as a nested top-level stream; a command known
/// to the inline table is run there and lifted; anything else becomes a
/// placeholder, wrapped in a paragraph block when the block form was used.
pub open spec fn toplevel_run_spec(meta: MetadataModel, cmd: CommandModel) -> Result<
    (MetadataModel, Seq<RootSpanModel>),
    EngineError,
>
    decreases cmd, 0int, 3int,
{
    if cmd.namespace == Some("meta"@) && (cmd.name == "title"@ || cmd.name == "author"@ || cmd.name
        == "date"@ || cmd.name == "tags"@ || cmd.name == "draft"@) {
        match raw_concat_spec(cmd.content) {
            None => Err(EngineError::MetadataNonTextContent),
            Some(t) => {
                let meta2 = if cmd.name == "title"@ {
                    MetadataModel { title: Some(t), ..meta }
                } else if cmd.name == "author"@ {
                    MetadataModel { author: Some(t), ..meta }
                } else if cmd.name == "date"@ {
                    MetadataModel { date: Some(t), ..meta }
                } else if cmd.name == "tags"@ {
                    MetadataModel { keywords: split_trim_spec(t, 0), ..meta }
                } else {
                    MetadataModel { draft: true, ..meta }
                };
                Ok((meta2, Seq::empty()))
            },
        }
    } else if cmd.namespace is None && cmd.name == "code"@ {
        match process_all_spec(cmd.content, ProcMode::Preserve) {
            Err(e) => Err(e),
            Ok(inner) => Ok(
                (
                    meta,
                    seq![
                        if cmd.block {
                            RootSpanModel::Block(BlockFormatModel::Code, inner)
                        } else {
                            RootSpanModel::Format(SpanFormatModel::Code, inner)
                        },
                    ],
                ),
            ),
        }
    } else if cmd.namespace is None && (cmd.name == "head1"@ || cmd.name == "head2"@ || cmd.name
        == "head3"@) {
        match process_all_spec(cmd.content, ProcMode::Inline) {
            Err(e) => Err(e),
            Ok(inner) => {
                let level: int = if cmd.name == "head1"@ {
                    1
                } else if cmd.name == "head2"@ {
                    2
                } else {
                    3
                };
                Ok((meta, seq![RootSpanModel::Block(BlockFormatModel::Heading(level), inner)]))
            },
        }
    } else if cmd.namespace is None && cmd.name == "abstract"@ {
        root_spans_spec(cmd.content, meta)
    } else if is_inline_name(cmd.name, cmd.namespace) {
        match run_spec(cmd) {
            Err(e) => Err(e),
            Ok(spans) => Ok((meta, roots_of_spans(spans))),
        }
    } else {
        let ph = SpanModel::Text(placeholder_spec(cmd.name, cmd.namespace));
        if cmd.block {
            Ok((meta, seq![RootSpanModel::Block(BlockFormatModel::Paragraph, seq![ph])]))
        } else {
            Ok((meta, seq![RootSpanModel::Text(placeholder_spec(cmd.name, cmd.namespace))]))
        }
    }
}

/// The top-level fold over the elements `i..` of a stream.
///
/// Raw runs accumulate in the text buffer.  A command that emits spans
/// while text is pending first flushes the buffer through the top-level
/// text processor; a command that emits nothing leaves the buffer alone.
pub open spec fn rs_fold(stream: Seq<ElementModel>, i: int, st: RsState) -> Result<
    RsState,
    EngineError,
>
    decreases stream, stream.len() - i, 1int,
        when 0 <= i <= stream.len()
{
    if i == stream.len() {
        Ok(st)
    } else {
        match stream[i] {
            ElementModel::Raw(t) => rs_fold(stream, i + 1, RsState { text: st.text + t, ..st }),
            ElementModel::Comment(_) => rs_fold(stream, i + 1, st),
            ElementModel::LineBreak => rs_fold(
                stream,
                i + 1,
                RsState { spans: st.spans.push(RootSpanModel::LineBreak), ..st },
            ),
            ElementModel::Command(c) => match toplevel_run_spec(st.meta, c) {
                Err(e) => Err(e),
                Ok((m2, res)) => if res.len() > 0 && st.text.len() > 0 {
                    rs_fold(
                        stream,
                        i + 1,
                        RsState {
                            text: Seq::empty(),
                            spans: st.spans + toplevel_text_spec(st.text) + res,
                            meta: m2,
                        },
                    )
                } else {
                    rs_fold(stream, i + 1, RsState { text: st.text, spans: st.spans + res, meta: m2 })
                },
            },
        }
    }
}

/// What the top-level evaluation of a stream yields: the final metadata
/// and the root spans, with any pending text flushed at the end.
pub open spec fn root_spans_spec(stream: Seq<ElementModel>, meta: MetadataModel) -> Result<
    (MetadataModel, Seq<RootSpanModel>),
    EngineError,
>
    decreases stream, stream.len() + 2, 0int,
{
    match rs_fold(stream, 0, RsState { text: Seq::empty(), spans: Seq::empty(), meta }) {
        Err(e) => Err(e),
        Ok(st) => Ok(
            (
                st.meta,
                if st.text.len() > 0 {
                    st.spans + toplevel_text_spec(st.text)
                } else {
                    st.spans
                },
            ),
        ),
    }
}

/// Structural soundness of one root span: a paragraph block is never
/// empty and never holds adjacent text spans, and a heading block's level
/// lies in 1 to 3.
pub open spec fn rootspan_ok(rs: RootSpanModel) -> bool {
    match rs {
        RootSpanModel::Block(f, s) => {
            &&& (f == BlockFormatModel::Paragraph ==> s.len() > 0
                && crate::document::no_adjacent_texts(s))
            &&& (match f {
                BlockFormatModel::Heading(l) => 1 <= l <= 3,
                _ => true,
            })
        },
        _ => true,
    }
}

/// Every root span of the list is structurally sound.
pub open spec fn rootspans_ok(s: Seq<RootSpanModel>) -> bool {
    forall|i: int| 0 <= i < s.len() ==> rootspan_ok(#[trigger] s[i])
}

/// Soundness is preserved by concatenation.
pub proof fn lemma_rootspans_ok_concat(a: Seq<RootSpanModel>, b: Seq<RootSpanModel>)
    requires
        rootspans_ok(a),
        rootspans_ok(b),
    ensures
        rootspans_ok(a + b),
{
    assert forall|i: int| 0 <= i < (a + b).len() implies rootspan_ok(#[trigger] (a + b)[i]) by {
        if i < a.len() {
            assert((a + b)[i] == a[i]);
        } else {
            assert((a + b)[i] == b[i - a.len()]);
        }
    }
}

/// The top-level text processor emits only text runs and paragraph
/// breaks, never blocks.
proof fn lemma_tl_tokens_ok(t: Seq<char>, pos: int)
    requires
        0 <= pos <= t.len(),
    ensures
        rootspans_ok(crate::engine::tl_tokens(t, pos)),
    decreases t.len() - pos,
{
    if pos == t.len() {
    } else if crate::engine::pbreak_at(t, pos) {
        let ne = crate::chars::nl_end(t, pos);
        let e0 = if ne <= pos + 2 {
            pos + 2
        } else if ne > t.len() {
            t.len() as int
        } else {
            ne
        };
        lemma_tl_tokens_ok(t, e0);
        lemma_rootspans_ok_concat(
            seq![RootSpanModel::ParagraphBreak],
            crate::engine::tl_tokens(t, e0),
        );
    } else {
        let r = crate::engine::tl_chunk(t, pos);
        let e0 = if r.0 <= pos {
            pos + 1
        } else if r.0 > t.len() {
            t.len() as int
        } else {
            r.0
        };
        lemma_tl_tokens_ok(t, e0);
        lemma_rootspans_ok_concat(seq![RootSpanModel::Text(r.1)], crate::engine::tl_tokens(t, e0));
    }
}

/// Soundness of what the top-level processor makes of any text.
pub proof fn lemma_toplevel_text_ok(t: Seq<char>)
    ensures
        rootspans_ok(toplevel_text_spec(t)),
{
    if crate::engine::pbreak_at(t, 0) {
        let e = crate::chars::nl_end(t, 0);
        crate::chars::lemma_nl_end(t, 0);
        lemma_tl_tokens_ok(t, if 0 <= e <= t.len() { e } else { 0 });
    } else {
        lemma_tl_tokens_ok(t, 0);
    }
}

/// Every root span a top-level command emits is structurally sound, and
/// no command touches the reserved abstract slot.
pub proof fn lemma_toplevel_run_ok(meta: MetadataModel, cmd: CommandModel)
    ensures
        toplevel_run_spec(meta, cmd) matches Ok((m2, res)) ==> rootspans_ok(res)
            && m2.abstract_blocks == meta.abstract_blocks,
    decreases cmd, 0int, 3int,
{
    if cmd.namespace is None && cmd.name == "abstract"@ {
        lemma_root_spans_ok(cmd.content, meta);
    } else if is_inline_name(cmd.name, cmd.namespace) && !(cmd.namespace is None && cmd.name
        == "code"@) {
        match run_spec(cmd) {
            Err(_) => {},
            Ok(spans) => {
                assert forall|i: int| 0 <= i < roots_of_spans(spans).len() implies rootspan_ok(
                    #[trigger] roots_of_spans(spans)[i],
                ) by {
                    assert(roots_of_spans(spans)[i] == span_to_root(spans[i]));
                }
            },
        }
    } else {
    }
}

/// The top-level fold keeps every emitted root span sound and never
/// touches the reserved abstract slot.
proof fn lemma_rs_fold_ok(stream: Seq<ElementModel>, i: int, st: RsState)
    requires
        0 <= i <= stream.len(),
        rootspans_ok(st.spans),
    ensures
        rs_fold(stream, i, st) matches Ok(st2) ==> rootspans_ok(st2.spans)
            && st2.meta.abstract_blocks == st.meta.abstract_blocks,
    decreases stream, stream.len() - i, 1int,
{
    if i == stream.len() {
    } else {
        match stream[i] {
            ElementModel::Raw(t) => {
                lemma_rs_fold_ok(stream, i + 1, RsState { text: st.text + t, ..st });
            },
            ElementModel::Comment(_) => {
                lemma_rs_fold_ok(stream, i + 1, st);
            },
            ElementModel::LineBreak => {
                let st1 = RsState { spans: st.spans.push(RootSpanModel::LineBreak), ..st };
                assert(st.spans.push(RootSpanModel::LineBreak) =~= st.spans + seq![
                    RootSpanModel::LineBreak,
                ]);
                lemma_rootspans_ok_concat(st.spans, seq![RootSpanModel::LineBreak]);
                lemma_rs_fold_ok(stream, i + 1, st1);
            },
            ElementModel::Command(c) => {
                lemma_toplevel_run_ok(st.meta, c);
                match toplevel_run_spec(st.meta, c) {
                    Err(_) => {},
                    Ok((m2, res)) => {
                        if res.len() > 0 && st.text.len() > 0 {
                            lemma_toplevel_text_ok(st.text);
                            lemma_rootspans_ok_concat(st.spans, toplevel_text_spec(st.text));
                            lemma_rootspans_ok_concat(st.spans + toplevel_text_spec(st.text), res);
                            lemma_rs_fold_ok(
                                stream,
                                i + 1,
                                RsState {
                                    text: Seq::empty(),
                                    spans: st.spans + toplevel_text_spec(st.text) + res,
                                    meta: m2,
                                },
                            );
                        } else {
                            lemma_rootspans_ok_concat(st.spans, res);
                            lemma_rs_fold_ok(
                                stream,
                                i + 1,
                                RsState { text: st.text, spans: st.spans + res, meta: m2 },
                            );
                        }
                    },
                }
            },
        }
    }
}

/// Every root span of a top-level evaluation is structurally sound, and
/// the reserved abstract slot stays as it was.
pub proof fn lemma_root_spans_ok(stream: Seq<ElementModel>, meta: MetadataModel)
    ensures
        root_spans_spec(stream, meta) matches Ok((m2, spans)) ==> rootspans_ok(spans)
            && m2.abstract_blocks == meta.abstract_blocks,
    decreases stream, stream.len() + 2, 0int,
{
    let init = RsState { text: Seq::empty(), spans: Seq::empty(), meta };
    assert(rootspans_ok(init.spans));
    lemma_rs_fold_ok(stream, 0, init);
    match rs_fold(stream, 0, init) {
        Err(_) => {},
        Ok(st) => {
            if st.text.len() > 0 {
                lemma_toplevel_text_ok(st.text);
                lemma_rootspans_ok_concat(st.spans, toplevel_text_spec(st.text));
            }
        },
    }
}

/// Builds the visible placeholder text for an unknown command.
fn placeholder(name: &String, namespace: &Option<String>) -> (r: String)
    ensures
        r@ == placeholder_spec(
            name@,
            match namespace {
                Some(ns) => Some(ns@),
                None => None,
            },
        ),
{
    let mut sp = String::new();
    sp.append("[[unknown command ");
    match namespace {
        Some(ns) => {
            sp.append(ns.as_str());
            sp.append(":");
            proof {
                reveal_strlit(":");
                assert(":"@ =~= seq![':']);
            }
        },
        None => {},
    }
    sp.append(name.as_str());
    sp.append("]]");
    proof {
        assert(sp@ =~= placeholder_spec(
            name@,
            match namespace {
                Some(ns) => Some(ns@),
                None => None,
            },
        ));
    }
    sp
}

/// Finds the named parameter; on repeated names the last one wins.
fn lookup_param<'a>(params: &'a Vec<Param>, name: &str) -> (r: Option<&'a ParamValue>)
    ensures
        match r {
            Some(v) => param_lookup(params_model(params@), name@) == Some(v@),
            None => param_lookup(params_model(params@), name@) is None,
        },
{
    let ghost pm = params_model(params@);
    proof {
        broadcast use lemma_params_model;

        assert(pm.subrange(0, pm.len() as int) =~= pm);
    }
    let mut i = params.len();
    loop
        invariant
            i <= params.len(),
            params_model(params@) == pm,
            pm.len() == params@.len(),
            param_lookup(pm, name@) == param_lookup(pm.subrange(0, i as int), name@),
        ensures
            i == 0,
            param_lookup(pm, name@) is None,
        decreases i,
    {
        if i == 0 {
            break;
        }
        i = i - 1;
        proof {
            broadcast use lemma_params_model;

        }
        if str_eq(params[i].name.as_str(), name) {
            proof {
                assert(pm.subrange(0, i as int + 1).last() == params@[i as int].model());
            }
            return Some(&params[i].value);
        }
        proof {
            assert(pm.subrange(0, i as int + 1).drop_last() =~= pm.subrange(0, i as int));
        }
    }
    None
}

/// Whether the named parameter was given.
fn param_present(params: &Vec<Param>, name: &str) -> (r: bool)
    ensures
        r == has_param(params_model(params@), name@),
{
    lookup_param(params, name).is_some()
}

/// Lifts an inline command's spans to the top level.
fn lift_spans(v: Vec<Span>) -> (r: Vec<RootSpan>)
    ensures
        rootspans_model(r@) == roots_of_spans(crate::document::spans_model(v@)),
{
    let ghost full = crate::document::spans_model(v@);
    let mut rest = v;
    let mut out: Vec<RootSpan> = Vec::new();
    proof {
        broadcast use crate::document::lemma_spans_model;
        broadcast use crate::engine::lemma_rootspans_model;

        assert(rootspans_model(out@) + roots_of_spans(crate::document::spans_model(rest@))
            =~= roots_of_spans(full));
    }
    while rest.len() > 0
        invariant
            rootspans_model(out@) + roots_of_spans(crate::document::spans_model(rest@))
                == roots_of_spans(full),
        decreases rest@.len(),
    {
        let ghost old_rest = rest@;
        let ghost old_out = out@;
        let s = rest.remove(0);
        let lifted = crate::engine::RootSpan::from_span(s);
        out.push(lifted);
        proof {
            broadcast use crate::document::lemma_spans_model;
            broadcast use crate::engine::lemma_rootspans_model;

            let old_m = crate::document::spans_model(old_rest);
            let new_m = crate::document::spans_model(rest@);
            assert(roots_of_spans(old_m) =~= seq![span_to_root(s@)] + roots_of_spans(new_m));
            assert(rootspans_model(out@) =~= rootspans_model(old_out) + seq![lifted@]);
            assert(rootspans_model(out@) + roots_of_spans(new_m) =~= rootspans_model(old_out)
                + roots_of_spans(old_m));
        }
    }
    proof {
        broadcast use crate::document::lemma_spans_model;

        assert(roots_of_spans(crate::document::spans_model(rest@))
            =~= Seq::<RootSpanModel>::empty());
        assert(rootspans_model(out@) + Seq::<RootSpanModel>::empty() =~= rootspans_model(out@));
    }
    out
}

/// Runs a top-level command; see [`toplevel_run_spec`].
pub fn toplevel_run(metadata: &mut Metadata, cmd: &Command) -> (r: Result<
    Vec<RootSpan>,
    EngineError,
>)
    ensures
        match r {
            Ok(v) => toplevel_run_spec(old(metadata)@, cmd@) == Ok::<_, EngineError>(
                (final(metadata)@, rootspans_model(v@)),
            ),
            Err(e) => toplevel_run_spec(old(metadata)@, cmd@) == Err::<
                (MetadataModel, Seq<RootSpanModel>),
                _,
            >(e),
        },
    decreases cmd, 3int,
{
    let ns_none = cmd.namespace.is_none();
    let ns_meta = match &cmd.namespace {
        Some(ns) => str_eq(ns.as_str(), "meta"),
        None => false,
    };
    if ns_meta && str_eq(cmd.name.as_str(), "title") {
        toplevel::meta(metadata, toplevel::MetaSlot::Title, &cmd.content, cmd.block)
    } else if ns_meta && str_eq(cmd.name.as_str(), "author") {
        toplevel::meta(metadata, toplevel::MetaSlot::Author, &cmd.content, cmd.block)
    } else if ns_meta && str_eq(cmd.name.as_str(), "date") {
        toplevel::meta(metadata, toplevel::MetaSlot::Date, &cmd.content, cmd.block)
    } else if ns_meta && str_eq(cmd.name.as_str(), "tags") {
        toplevel::meta(metadata, toplevel::MetaSlot::Tags, &cmd.content, cmd.block)
    } else if ns_meta && str_eq(cmd.name.as_str(), "draft") {
        toplevel::meta(metadata, toplevel::MetaSlot::Draft, &cmd.content, cmd.block)
    } else if ns_none && str_eq(cmd.name.as_str(), "code") {
        toplevel::code(metadata, &cmd.content, cmd.block)
    } else if ns_none && str_eq(cmd.name.as_str(), "head1") {
        toplevel::header(metadata, 1, &cmd.content, cmd.block)
    } else if ns_none && str_eq(cmd.name.as_str(), "head2") {
        toplevel::header(metadata, 2, &cmd.content, cmd.block)
    } else if ns_none && str_eq(cmd.name.as_str(), "head3") {
        toplevel::header(metadata, 3, &cmd.content, cmd.block)
    } else if ns_none && str_eq(cmd.name.as_str(), "abstract") {
        toplevel::abstract_cmd(metadata, &cmd.content)
    } else if ns_none && (str_eq(cmd.name.as_str(), "strong") || str_eq(cmd.name.as_str(), "link")
        || str_eq(cmd.name.as_str(), "raw")) {
        match run(cmd) {
            Err(e) => Err(e),
            Ok(v) => Ok(lift_spans(v)),
        }
    } else {
        let ptext = placeholder(&cmd.name, &cmd.namespace);
        let mut v: Vec<RootSpan> = Vec::new();
        if cmd.block {
            let mut inner: Vec<Span> = Vec::new();
            inner.push(Span::Text(ptext));
            proof {
                broadcast use crate::document::lemma_spans_model;

                assert(crate::document::spans_model(inner@) =~= seq![
                    SpanModel::Text(placeholder_spec(cmd.name@, cmd@.namespace)),
                ]);
            }
            v.push(RootSpan::Block(crate::document::BlockFormat::Paragraph, inner));
        } else {
            v.push(RootSpan::Text(ptext));
        }
        proof {
            broadcast use crate::engine::lemma_rootspans_model;

            assert(rootspans_model(v@) =~= seq![v@[0].model()]);
        }
        Ok(v)
    }
}

/// Runs an inline command; see [`run_spec`].
pub fn run(cmd: &Command) -> (r: Result<Vec<Span>, EngineError>)
    ensures
        match r {
            Ok(v) => run_spec(cmd@) == Ok::<_, EngineError>(crate::document::spans_model(v@)),
            Err(e) => run_spec(cmd@) == Err::<Seq<SpanModel>, _>(e),
        },
    decreases cmd, 2int,
{
    let ns_none = cmd.namespace.is_none();
    if ns_none && str_eq(cmd.name.as_str(), "code") {
        inline::code(&cmd.content, &cmd.params, cmd.block)
    } else if ns_none && str_eq(cmd.name.as_str(), "strong") {
        inline::strong(&cmd.content, &cmd.params, cmd.block)
    } else if ns_none && str_eq(cmd.name.as_str(), "link") {
        inline::link(&cmd.content, &cmd.params, cmd.block)
    } else if ns_none && str_eq(cmd.name.as_str(), "raw") {
        inline::raw(&cmd.content, &cmd.params, cmd.block)
    } else {
        let ph = Span::Text(placeholder(&cmd.name, &cmd.namespace));
        let mut v: Vec<Span> = Vec::new();
        v.push(ph);
        proof {
            broadcast use crate::document::lemma_spans_model;

            assert(crate::document::spans_model(v@) =~= seq![
                SpanModel::Text(placeholder_spec(cmd.name@, cmd@.namespace)),
            ]);
        }
        Ok(v)
    }
}

} // verus!
