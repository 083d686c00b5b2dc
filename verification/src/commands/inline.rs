//! Inline command handlers: each turns a command's content into spans.

use vstd::prelude::*;

use crate::commands::has_param;
use crate::commands::lookup_param;
use crate::commands::param_lookup;
use crate::commands::param_present;
use crate::commands::process_all_spec;
use crate::document::Span;
use crate::document::SpanFormat;
use crate::document::SpanFormatModel;
use crate::document::SpanModel;
use crate::document::lemma_spans_model;
use crate::document::spans_model;
use crate::engine::EngineError;
use crate::engine::ProcMode;
use crate::engine::process_all;
use crate::parser::Element;
use crate::parser::Param;
use crate::parser::ParamValue;
use crate::parser::ParamValueModel;
use crate::parser::params_model;
use crate::parser::stream_model;

verus! {

/// `\code{...}`: the preserved content wrapped in a code span.
pub fn code(content: &Vec<Element>, _params: &Vec<Param>, _block: bool) -> (r: Result<
    Vec<Span>,
    EngineError,
>)
    ensures
        match r {
            Ok(v) => process_all_spec(stream_model(content@), ProcMode::Preserve) matches Ok(inner)
                && spans_model(v@) == seq![SpanModel::Format(SpanFormatModel::Code, inner)],
            Err(e) => process_all_spec(stream_model(content@), ProcMode::Preserve) == Err::<
                Seq<SpanModel>,
                _,
            >(e),
        },
    decreases content, 3int,
{
    let inner = match process_all(content, ProcMode::Preserve) {
        Ok(x) => x,
        Err(e) => {
            return Err(e);
        },
    };
    let mut v: Vec<Span> = Vec::new();
    v.push(Span::Format(SpanFormat::Code, inner));
    proof {
        broadcast use lemma_spans_model;

        assert(spans_model(v@) =~= seq![v@[0].model()]);
    }
    Ok(v)
}

/// `\strong{...}`: the inline content wrapped in a strong span.
pub fn strong(content: &Vec<Element>, _params: &Vec<Param>, _block: bool) -> (r: Result<
    Vec<Span>,
    EngineError,
>)
    ensures
        match r {
            Ok(v) => process_all_spec(stream_model(content@), ProcMode::Inline) matches Ok(inner)
                && spans_model(v@) == seq![SpanModel::Format(SpanFormatModel::Strong, inner)],
            Err(e) => process_all_spec(stream_model(content@), ProcMode::Inline) == Err::<
                Seq<SpanModel>,
                _,
            >(e),
        },
    decreases content, 3int,
{
    let inner = match process_all(content, ProcMode::Inline) {
        Ok(x) => x,
        Err(e) => {
            return Err(e);
        },
    };
    let mut v: Vec<Span> = Vec::new();
    v.push(Span::Format(SpanFormat::Strong, inner));
    proof {
        broadcast use lemma_spans_model;

        assert(spans_model(v@) =~= seq![v@[0].model()]);
    }
    Ok(v)
}

/// `\link[to=...]{...}`: an anchor around the inline content.
///
/// The `to` parameter must be given with a textual value; a bare `blank`
/// parameter asks for a new browsing context.
pub fn link(content: &Vec<Element>, params: &Vec<Param>, _block: bool) -> (r: Result<
    Vec<Span>,
    EngineError,
>)
    ensures
        match r {
            Ok(v) => process_all_spec(stream_model(content@), ProcMode::Inline) matches Ok(inner)
                && param_lookup(crate::parser::params_model(params@), "to"@) matches Some(
                ParamValueModel::Text(t),
            ) && spans_model(v@) == seq![
                SpanModel::Format(
                    SpanFormatModel::Link {
                        to: t,
                        blank: has_param(crate::parser::params_model(params@), "blank"@),
                    },
                    inner,
                ),
            ],
            Err(e) => {
                ||| process_all_spec(stream_model(content@), ProcMode::Inline) == Err::<
                    Seq<SpanModel>,
                    _,
                >(e)
                ||| {
                    &&& process_all_spec(stream_model(content@), ProcMode::Inline) is Ok
                    &&& e == EngineError::MissingRequiredParam
                    &&& !(param_lookup(crate::parser::params_model(params@), "to"@) matches Some(
                        ParamValueModel::Text(_),
                    ))
                }
            },
        },
    decreases content, 3int,
{
    let inner = match process_all(content, ProcMode::Inline) {
        Ok(x) => x,
        Err(e) => {
            return Err(e);
        },
    };
    let to: String = match lookup_param(params, "to") {
        Some(ParamValue::Text(t)) => t.clone(),
        _ => {
            return Err(EngineError::MissingRequiredParam);
        },
    };
    let blank = param_present(params, "blank");
    let mut v: Vec<Span> = Vec::new();
    v.push(Span::Format(SpanFormat::Link { to, blank }, inner));
    proof {
        broadcast use lemma_spans_model;

        assert(spans_model(v@) =~= seq![v@[0].model()]);
    }
    Ok(v)
}

/// `\raw{...}`: the first preserved text, emitted verbatim on output.
pub fn raw(content: &Vec<Element>, _params: &Vec<Param>, _block: bool) -> (r: Result<
    Vec<Span>,
    EngineError,
>)
    ensures
        match r {
            Ok(v) => process_all_spec(stream_model(content@), ProcMode::Preserve) matches Ok(inner)
                && spans_model(v@) == (if inner.len() > 0 && inner[0] is Text {
                seq![SpanModel::Raw(inner[0]->Text_0)]
            } else {
                Seq::<SpanModel>::empty()
            }),
            Err(e) => process_all_spec(stream_model(content@), ProcMode::Preserve) == Err::<
                Seq<SpanModel>,
                _,
            >(e),
        },
    decreases content, 3int,
{
    let mut inner = match process_all(content, ProcMode::Preserve) {
        Ok(x) => x,
        Err(e) => {
            return Err(e);
        },
    };
    let ghost inner_m = spans_model(inner@);
    let mut v: Vec<Span> = Vec::new();
    if inner.len() > 0 {
        let first = inner.remove(0);
        proof {
            broadcast use lemma_spans_model;

            assert(first.model() == inner_m[0]);
        }
        match first {
            Span::Text(t) => {
                v.push(Span::Raw(t));
                proof {
                    broadcast use lemma_spans_model;

                    assert(spans_model(v@) =~= seq![v@[0].model()]);
                }
            },
            _ => {
                proof {
                    assert(spans_model(v@) =~= Seq::<SpanModel>::empty());
                }
            },
        }
    } else {
        proof {
            broadcast use lemma_spans_model;

            assert(spans_model(v@) =~= Seq::<SpanModel>::empty());
        }
    }
    Ok(v)
}

} // verus!
