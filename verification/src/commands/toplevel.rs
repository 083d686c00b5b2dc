//! Top-level command handlers: each turns a command into root spans, and
//! the `meta` family writes the metadata record.

use vstd::prelude::*;

use crate::commands::process_all_spec;
use crate::commands::raw_concat_spec;
use crate::document::BlockFormat;
use crate::document::BlockFormatModel;
use crate::document::Field;
use crate::document::Metadata;
use crate::document::MetadataModel;
use crate::document::SpanFormat;
use crate::document::SpanFormatModel;
use crate::document::split_trim_spec;
use crate::engine::EngineError;
use crate::engine::ProcMode;
use crate::engine::RootSpan;
use crate::engine::RootSpanModel;
use crate::engine::lemma_rootspans_model;
use crate::engine::process_all;
use crate::engine::rootspans_model;
use crate::parser::Element;
use crate::parser::ElementModel;
use crate::parser::lemma_stream_model;
use crate::parser::stream_model;

verus! {

/// `\code` at the top level: a code block in the block form, inline code
/// otherwise; either way the content is preserved.
pub fn code(metadata: &mut Metadata, content: &Vec<Element>, block: bool) -> (r: Result<
    Vec<RootSpan>,
    EngineError,
>)
    ensures
        *final(metadata) == *old(metadata),
        match r {
            Ok(v) => process_all_spec(stream_model(content@), ProcMode::Preserve) matches Ok(inner)
                && rootspans_model(v@) == seq![
                if block {
                    RootSpanModel::Block(BlockFormatModel::Code, inner)
                } else {
                    RootSpanModel::Format(SpanFormatModel::Code, inner)
                },
            ],
            Err(e) => process_all_spec(stream_model(content@), ProcMode::Preserve) == Err::<
                Seq<crate::document::SpanModel>,
                _,
            >(e),
        },
    decreases content, 5int,
{
    let inner = match process_all(content, ProcMode::Preserve) {
        Ok(x) => x,
        Err(e) => {
            return Err(e);
        },
    };
    let mut v: Vec<RootSpan> = Vec::new();
    if block {
        v.push(RootSpan::Block(BlockFormat::Code, inner));
    } else {
        v.push(RootSpan::Format(SpanFormat::Code, inner));
    }
    proof {
        broadcast use lemma_rootspans_model;

        assert(rootspans_model(v@) =~= seq![v@[0].model()]);
    }
    Ok(v)
}

/// `\head1` to `\head3`: a heading block around the inline content.
pub fn header(metadata: &mut Metadata, level: usize, content: &Vec<Element>, _block: bool) -> (r:
    Result<Vec<RootSpan>, EngineError>)
    requires
        1 <= level <= 3,
    ensures
        *final(metadata) == *old(metadata),
        match r {
            Ok(v) => process_all_spec(stream_model(content@), ProcMode::Inline) matches Ok(inner)
                && rootspans_model(v@) == seq![
                RootSpanModel::Block(BlockFormatModel::Heading(level as int), inner),
            ],
            Err(e) => process_all_spec(stream_model(content@), ProcMode::Inline) == Err::<
                Seq<crate::document::SpanModel>,
                _,
            >(e),
        },
    decreases content, 5int,
{
    let inner = match process_all(content, ProcMode::Inline) {
        Ok(x) => x,
        Err(e) => {
            return Err(e);
        },
    };
    let mut v: Vec<RootSpan> = Vec::new();
    v.push(RootSpan::Block(BlockFormat::Heading(level), inner));
    proof {
        broadcast use lemma_rootspans_model;

        assert(rootspans_model(v@) =~= seq![v@[0].model()]);
    }
    Ok(v)
}

/// `\abstract`: its content is evaluated as a nested top-level stream into
/// the outline; the metadata slot for an abstract stays reserved.
pub fn abstract_cmd(metadata: &mut Metadata, content: &Vec<Element>) -> (r: Result<
    Vec<RootSpan>,
    EngineError,
>)
    ensures
        match r {
            Ok(v) => crate::commands::root_spans_spec(stream_model(content@), old(metadata)@)
                == Ok::<_, EngineError>((final(metadata)@, rootspans_model(v@))),
            Err(e) => crate::commands::root_spans_spec(stream_model(content@), old(metadata)@)
                == Err::<(MetadataModel, Seq<RootSpanModel>), _>(e),
        },
    decreases content, 5int,
{
    crate::engine::root_spans(metadata, content)
}

/// Which metadata slot a `meta` command writes.
#[derive(Clone, Copy, Debug, PartialEq, Eq, Structural)]
pub enum MetaSlot {
    Title,
    Author,
    Date,
    Tags,
    Draft,
}

/// The metadata record after writing raw text `t` into `slot`; a repeated
/// write simply overwrites.
pub open spec fn meta_write_spec(meta: MetadataModel, slot: MetaSlot, t: Seq<char>) -> MetadataModel {
    match slot {
        MetaSlot::Title => MetadataModel { title: Some(t), ..meta },
        MetaSlot::Author => MetadataModel { author: Some(t), ..meta },
        MetaSlot::Date => MetadataModel { date: Some(t), ..meta },
        MetaSlot::Tags => MetadataModel { keywords: split_trim_spec(t, 0), ..meta },
        MetaSlot::Draft => MetadataModel { draft: true, ..meta },
    }
}

/// A `meta:` command: reduces its content to raw text and writes the
/// slot.  Content holding anything but raw runs is fatal.
pub fn meta(metadata: &mut Metadata, slot: MetaSlot, content: &Vec<Element>, _block: bool) -> (r:
    Result<Vec<RootSpan>, EngineError>)
    ensures
        match r {
            Ok(v) => raw_concat_spec(stream_model(content@)) matches Some(t) && final(metadata)@
                == meta_write_spec(old(metadata)@, slot, t) && rootspans_model(v@)
                == Seq::<RootSpanModel>::empty(),
            Err(e) => raw_concat_spec(stream_model(content@)) is None && e
                == EngineError::MetadataNonTextContent,
        },
{
    let text = match raw_concat(content) {
        Some(t) => t,
        None => {
            return Err(EngineError::MetadataNonTextContent);
        },
    };
    match slot {
        MetaSlot::Title => {
            metadata.title = Field::from_text(text.as_str());
        },
        MetaSlot::Author => {
            metadata.author = Field::from_text(text.as_str());
        },
        MetaSlot::Date => {
            metadata.date = Field::from_text(text.as_str());
        },
        MetaSlot::Tags => {
            metadata.keywords = Field::from_text(text.as_str());
        },
        MetaSlot::Draft => {
            metadata.draft = Field::from_text(text.as_str());
        },
    }
    let v: Vec<RootSpan> = Vec::new();
    proof {
        assert(rootspans_model(v@) =~= Seq::<RootSpanModel>::empty());
    }
    Ok(v)
}

/// The concatenated raw text of a stream, or nothing if any element is
/// not a raw run.
fn raw_concat(content: &Vec<Element>) -> (r: Option<String>)
    ensures
        match r {
            Some(t) => raw_concat_spec(stream_model(content@)) == Some(t@),
            None => raw_concat_spec(stream_model(content@)) is None,
        },
{
    let ghost sm = stream_model(content@);
    let mut acc = String::new();
    let mut i: usize = 0;
    proof {
        broadcast use lemma_stream_model;

        assert(sm.subrange(0, sm.len() as int) =~= sm);
        assert(acc@ =~= Seq::<char>::empty());
    }
    while i < content.len()
        invariant
            i <= content@.len(),
            sm == stream_model(content@),
            sm.len() == content@.len(),
            match raw_concat_spec(sm.subrange(i as int, sm.len() as int)) {
                Some(rest) => raw_concat_spec(sm) == Some(acc@ + rest),
                None => raw_concat_spec(sm) is None,
            },
        decreases content@.len() - i,
    {
        proof {
            broadcast use lemma_stream_model;

        }
        match &content[i] {
            Element::Raw(t) => {
                let ghost old_acc = acc@;
                acc.append(t.as_str());
                proof {
                    let suffix = sm.subrange(i as int, sm.len() as int);
                    assert(suffix[0] == sm[i as int]);
                    assert(suffix.subrange(1, suffix.len() as int) =~= sm.subrange(
                        i as int + 1,
                        sm.len() as int,
                    ));
                    match raw_concat_spec(sm.subrange(i as int + 1, sm.len() as int)) {
                        Some(rest2) => {
                            assert(old_acc + (t@ + rest2) =~= acc@ + rest2);
                        },
                        None => {},
                    }
                }
            },
            _ => {
                proof {
                    let suffix = sm.subrange(i as int, sm.len() as int);
                    assert(suffix[0] == sm[i as int]);
                }
                return None;
            },
        }
        i = i + 1;
    }
    proof {
        assert(sm.subrange(sm.len() as int, sm.len() as int) =~= Seq::<ElementModel>::empty());
        assert(raw_concat_spec(sm.subrange(sm.len() as int, sm.len() as int)) == Some(
            Seq::<char>::empty(),
        ));
        assert(acc@ + Seq::<char>::empty() =~= acc@);
    }
    Some(acc)
}

} // verus!
