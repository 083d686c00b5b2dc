//! The HTML emitter: walks a document tree and builds the output document.
//!
//! Spans map to inline tags (`code`, `strong`, anchors, `<br />`), blocks
//! map to paragraphs, `pre`/`code` pairs and headings, and the whole
//! document becomes `<html><head>...</head><body>...</body></html>`.
//! An authored heading level is shifted one down on output (`head1`
//! becomes `<h2>`): the page-level `<h1>` stays reserved.

use vstd::prelude::*;

use crate::document::Block;
use crate::document::BlockFormat;
use crate::document::BlockFormatModel;
use crate::document::BlockModel;
use crate::document::Document;
use crate::document::DocumentModel;
use crate::document::Metadata;
use crate::document::MetadataModel;
use crate::document::Span;
use crate::document::SpanFormat;
use crate::document::SpanFormatModel;
use crate::document::SpanModel;
use crate::document::blocks_model;
use crate::document::lemma_blocks_model;
use crate::document::lemma_spans_model;
use crate::document::spans_model;
use crate::html::Element;
use crate::html::Fragment;
use crate::html::HtmlDocument;
use crate::html::HtmlModel;
use crate::html::RawHTML;
use crate::html::Tag;
use crate::html::TagModel;
use crate::html::TagName;
use crate::html::attrs_model;
use crate::html::elems_model;
use crate::html::lemma_attrs_model;
use crate::html::lemma_elems_model;
use crate::html::lemma_elems_model_push;

verus! {

/// A block is well formed when any heading level lies in 1 to 3.
pub open spec fn block_wf(b: BlockModel) -> bool {
    match b.format {
        BlockFormatModel::Heading(l) => 1 <= l <= 3,
        _ => true,
    }
}

/// Every block of the list is well formed.
pub open spec fn blocks_wf(s: Seq<BlockModel>) -> bool {
    forall|i: int| 0 <= i < s.len() ==> block_wf(#[trigger] s[i])
}

/// A document is well formed when its outline and any stored abstract are.
pub open spec fn document_wf(d: DocumentModel) -> bool {
    &&& blocks_wf(d.outline)
    &&& match d.metadata.abstract_blocks {
        Some(b) => blocks_wf(b),
        None => true,
    }
}

/// The element a span maps to.
pub open spec fn span_elem_spec(s: SpanModel) -> HtmlModel
    decreases s, 0int,
{
    match s {
        SpanModel::Text(t) => HtmlModel::Text(t),
        SpanModel::Raw(r) => HtmlModel::Raw(r),
        SpanModel::LineBreak => HtmlModel::Tag(
            TagModel { name: TagName::Br, attributes: Seq::empty(), content: Seq::empty() },
        ),
        SpanModel::Format(f, xs) => {
            let inner = spans_elems_spec(xs, 0);
            match f {
                SpanFormatModel::Code => HtmlModel::Tag(
                    TagModel { name: TagName::Code, attributes: Seq::empty(), content: inner },
                ),
                SpanFormatModel::Strong => HtmlModel::Tag(
                    TagModel { name: TagName::Strong, attributes: Seq::empty(), content: inner },
                ),
                SpanFormatModel::Link { to, blank } => HtmlModel::Tag(
                    TagModel {
                        name: TagName::A,
                        attributes: if blank {
                            seq![
                                ("href"@, to),
                                ("target"@, "_blank"@),
                                ("rel"@, "noopener noreferrer"@),
                            ]
                        } else {
                            seq![("href"@, to)]
                        },
                        content: inner,
                    },
                ),
            }
        },
    }
}

/// The elements the spans `i..` map to, in order.
pub open spec fn spans_elems_spec(xs: Seq<SpanModel>, i: int) -> Seq<HtmlModel>
    decreases xs, xs.len() - i,
        when 0 <= i <= xs.len()
{
    if i == xs.len() {
        Seq::empty()
    } else {
        seq![span_elem_spec(xs[i])] + spans_elems_spec(xs, i + 1)
    }
}

/// The heading tag an authored level maps to: one level further down,
/// reserving the page-level heading.
pub open spec fn heading_name_spec(level: int) -> TagName {
    if level == 1 {
        TagName::H2
    } else if level == 2 {
        TagName::H3
    } else {
        TagName::H4
    }
}

/// The element a block maps to.
pub open spec fn block_elem_spec(b: BlockModel) -> HtmlModel {
    let inner = spans_elems_spec(b.spans, 0);
    match b.format {
        BlockFormatModel::Paragraph => HtmlModel::Tag(
            TagModel { name: TagName::P, attributes: Seq::empty(), content: inner },
        ),
        BlockFormatModel::Code => HtmlModel::Tag(
            TagModel {
                name: TagName::Pre,
                attributes: Seq::empty(),
                content: seq![
                    HtmlModel::Tag(
                        TagModel {
                            name: TagName::Code,
                            attributes: seq![("class"@, "code-block"@)],
                            content: inner,
                        },
                    ),
                ],
            },
        ),
        BlockFormatModel::Heading(l) => HtmlModel::Tag(
            TagModel { name: heading_name_spec(l), attributes: Seq::empty(), content: inner },
        ),
        BlockFormatModel::Raw => HtmlModel::Fragment(inner),
    }
}

/// The elements the blocks `i..` map to, in order.
pub open spec fn blocks_elems_spec(s: Seq<BlockModel>, i: int) -> Seq<HtmlModel>
    decreases s.len() - i
        when 0 <= i <= s.len()
{
    if i == s.len() {
        Seq::empty()
    } else {
        seq![block_elem_spec(s[i])] + blocks_elems_spec(s, i + 1)
    }
}

/// The document's `head`: the charset declaration, then the title when
/// one was collected.
pub open spec fn head_spec(m: MetadataModel) -> TagModel {
    TagModel {
        name: TagName::Head,
        attributes: Seq::empty(),
        content: seq![
            HtmlModel::Tag(
                TagModel {
                    name: TagName::Meta,
                    attributes: seq![("charset"@, "utf-8"@)],
                    content: Seq::empty(),
                },
            ),
        ] + match m.title {
            Some(t) => seq![
                HtmlModel::Tag(
                    TagModel {
                        name: TagName::Title,
                        attributes: Seq::empty(),
                        content: seq![HtmlModel::Text(t)],
                    },
                ),
            ],
            None => Seq::empty(),
        },
    }
}

/// The document's `body`: the outline blocks in order.
pub open spec fn body_spec(outline: Seq<BlockModel>) -> TagModel {
    TagModel {
        name: TagName::Body,
        attributes: Seq::empty(),
        content: blocks_elems_spec(outline, 0),
    }
}

/// The whole document: `head` then `body` under the root `html` tag.
pub open spec fn output_document_spec(d: DocumentModel) -> TagModel {
    TagModel {
        name: TagName::Html,
        attributes: Seq::empty(),
        content: seq![
            HtmlModel::Tag(head_spec(d.metadata)),
            HtmlModel::Tag(body_spec(d.outline)),
        ],
    }
}

/// Builds the element for one span.
pub fn span(s: &Span) -> (r: Element)
    ensures
        r@ == span_elem_spec(s@),
    decreases s, 0int,
{
    match s {
        Span::Text(t) => Element::Text(t.clone()),
        Span::Raw(rr) => Element::Raw(RawHTML(rr.clone())),
        Span::LineBreak => {
            let inner: Vec<Element> = Vec::new();
            let attrs: Vec<(String, String)> = Vec::new();
            proof {
                assert(elems_model(inner@) =~= Seq::<HtmlModel>::empty());
                assert(attrs_model(attrs@) =~= Seq::<(Seq<char>, Seq<char>)>::empty());
            }
            Element::Tag(Tag { name: TagName::Br, attributes: attrs, content: inner })
        },
        Span::Format(f, xs) => {
            let inner = spans_to_elems(xs);
            match f {
                SpanFormat::Code => {
                    let attrs: Vec<(String, String)> = Vec::new();
                    proof {
                        assert(attrs_model(attrs@) =~= Seq::<(Seq<char>, Seq<char>)>::empty());
                    }
                    Element::Tag(Tag { name: TagName::Code, attributes: attrs, content: inner })
                },
                SpanFormat::Strong => {
                    let attrs: Vec<(String, String)> = Vec::new();
                    proof {
                        assert(attrs_model(attrs@) =~= Seq::<(Seq<char>, Seq<char>)>::empty());
                    }
                    Element::Tag(Tag { name: TagName::Strong, attributes: attrs, content: inner })
                },
                SpanFormat::Link { to, blank } => {
                    let mut attrs: Vec<(String, String)> = Vec::new();
                    attrs.push(("href".to_owned(), to.clone()));
                    if *blank {
                        attrs.push(("target".to_owned(), "_blank".to_owned()));
                        attrs.push(("rel".to_owned(), "noopener noreferrer".to_owned()));
                    }
                    proof {
                        broadcast use lemma_attrs_model;

                        if *blank {
                            assert(attrs_model(attrs@) =~= seq![
                                ("href"@, to@),
                                ("target"@, "_blank"@),
                                ("rel"@, "noopener noreferrer"@),
                            ]);
                        } else {
                            assert(attrs_model(attrs@) =~= seq![("href"@, to@)]);
                        }
                    }
                    Element::Tag(Tag { name: TagName::A, attributes: attrs, content: inner })
                },
            }
        },
    }
}

/// Builds the elements for a span list, in order.
fn spans_to_elems(xs: &Vec<Span>) -> (r: Vec<Element>)
    ensures
        elems_model(r@) == spans_elems_spec(spans_model(xs@), 0),
    decreases xs, 1int,
{
    let ghost xm = spans_model(xs@);
    let mut out: Vec<Element> = Vec::new();
    let mut i: usize = 0;
    proof {
        broadcast use lemma_spans_model;

        assert(xm.len() == xs@.len());
        assert(elems_model(out@) =~= Seq::<HtmlModel>::empty());
    }
    while i < xs.len()
        invariant
            i <= xs@.len(),
            xm == spans_model(xs@),
            xm.len() == xs@.len(),
            spans_elems_spec(xm, 0) == elems_model(out@) + spans_elems_spec(xm, i as int),
        decreases xs@.len() - i,
    {
        let e = span(&xs[i]);
        let ghost old_out = out@;
        out.push(e);
        proof {
            broadcast use lemma_spans_model;

            lemma_elems_model_push(old_out, e);
            assert(e@ == span_elem_spec(xm[i as int]));
            assert(elems_model(old_out) + (seq![span_elem_spec(xm[i as int])] + spans_elems_spec(
                xm,
                i as int + 1,
            )) =~= elems_model(out@) + spans_elems_spec(xm, i as int + 1));
        }
        i = i + 1;
    }
    proof {
        assert(elems_model(out@) + Seq::<HtmlModel>::empty() =~= elems_model(out@));
    }
    out
}

/// Builds the heading element for an authored level.
pub fn heading(level: usize, inner: Vec<Element>) -> (r: Element)
    requires
        1 <= level <= 3,
    ensures
        r@ == HtmlModel::Tag(
            TagModel {
                name: heading_name_spec(level as int),
                attributes: Seq::empty(),
                content: elems_model(inner@),
            },
        ),
{
    let attrs: Vec<(String, String)> = Vec::new();
    proof {
        assert(attrs_model(attrs@) =~= Seq::<(Seq<char>, Seq<char>)>::empty());
    }
    if level == 1 {
        Element::Tag(Tag { name: TagName::H2, attributes: attrs, content: inner })
    } else if level == 2 {
        Element::Tag(Tag { name: TagName::H3, attributes: attrs, content: inner })
    } else {
        Element::Tag(Tag { name: TagName::H4, attributes: attrs, content: inner })
    }
}

/// Builds the element for one block.
pub fn block(b: &Block) -> (r: Element)
    requires
        block_wf(b@),
    ensures
        r@ == block_elem_spec(b@),
{
    let Block(format, content) = b;
    let inner = spans_to_elems(content);
    match format {
        BlockFormat::Paragraph => {
            let attrs: Vec<(String, String)> = Vec::new();
            proof {
                assert(attrs_model(attrs@) =~= Seq::<(Seq<char>, Seq<char>)>::empty());
            }
            Element::Tag(Tag { name: TagName::P, attributes: attrs, content: inner })
        },
        BlockFormat::Code => {
            let mut code_attrs: Vec<(String, String)> = Vec::new();
            code_attrs.push(("class".to_owned(), "code-block".to_owned()));
            proof {
                broadcast use lemma_attrs_model;

                assert(attrs_model(code_attrs@) =~= seq![("class"@, "code-block"@)]);
            }
            let code_tag = Element::Tag(
                Tag { name: TagName::Code, attributes: code_attrs, content: inner },
            );
            let mut pre_children: Vec<Element> = Vec::new();
            pre_children.push(code_tag);
            let pre_attrs: Vec<(String, String)> = Vec::new();
            proof {
                broadcast use lemma_elems_model;

                assert(attrs_model(pre_attrs@) =~= Seq::<(Seq<char>, Seq<char>)>::empty());
                assert(elems_model(pre_children@) =~= seq![pre_children@[0].model()]);
            }
            Element::Tag(Tag { name: TagName::Pre, attributes: pre_attrs, content: pre_children })
        },
        BlockFormat::Heading(l) => heading(*l, inner),
        BlockFormat::Raw => Element::Fragment(Fragment(inner)),
    }
}

/// Builds the elements for a block list, in order.
fn blocks_to_elems(v: &Vec<Block>) -> (r: Vec<Element>)
    requires
        blocks_wf(blocks_model(v@)),
    ensures
        elems_model(r@) == blocks_elems_spec(blocks_model(v@), 0),
{
    let ghost bm = blocks_model(v@);
    let mut out: Vec<Element> = Vec::new();
    let mut i: usize = 0;
    proof {
        broadcast use lemma_blocks_model;

        assert(bm.len() == v@.len());
        assert(elems_model(out@) =~= Seq::<HtmlModel>::empty());
    }
    while i < v.len()
        invariant
            i <= v@.len(),
            bm == blocks_model(v@),
            bm.len() == v@.len(),
            blocks_wf(bm),
            blocks_elems_spec(bm, 0) == elems_model(out@) + blocks_elems_spec(bm, i as int),
        decreases v@.len() - i,
    {
        proof {
            broadcast use lemma_blocks_model;

            assert(v@[i as int].model() == bm[i as int]);
        }
        let e = block(&v[i]);
        let ghost old_out = out@;
        out.push(e);
        proof {
            lemma_elems_model_push(old_out, e);
            assert(elems_model(old_out) + (seq![block_elem_spec(bm[i as int])] + blocks_elems_spec(
                bm,
                i as int + 1,
            )) =~= elems_model(out@) + blocks_elems_spec(bm, i as int + 1));
        }
        i = i + 1;
    }
    proof {
        assert(elems_model(out@) + Seq::<HtmlModel>::empty() =~= elems_model(out@));
    }
    out
}

/// Builds the document's `head` tag.
pub fn head(metadata: &Metadata) -> (r: Tag)
    ensures
        r@ == head_spec(metadata@),
{
    let mut charset_attrs: Vec<(String, String)> = Vec::new();
    charset_attrs.push(("charset".to_owned(), "utf-8".to_owned()));
    let meta_children: Vec<Element> = Vec::new();
    proof {
        broadcast use lemma_attrs_model;

        assert(attrs_model(charset_attrs@) =~= seq![("charset"@, "utf-8"@)]);
        assert(elems_model(meta_children@) =~= Seq::<HtmlModel>::empty());
    }
    let meta_tag = Element::Tag(
        Tag { name: TagName::Meta, attributes: charset_attrs, content: meta_children },
    );
    let mut children: Vec<Element> = Vec::new();
    children.push(meta_tag);
    match &metadata.title {
        Some(t) => {
            let mut title_children: Vec<Element> = Vec::new();
            title_children.push(Element::Text(t.clone()));
            let title_attrs: Vec<(String, String)> = Vec::new();
            proof {
                broadcast use lemma_elems_model;

                assert(attrs_model(title_attrs@) =~= Seq::<(Seq<char>, Seq<char>)>::empty());
                assert(elems_model(title_children@) =~= seq![HtmlModel::Text(t@)]);
            }
            children.push(
                Element::Tag(
                    Tag { name: TagName::Title, attributes: title_attrs, content: title_children },
                ),
            );
        },
        None => {},
    }
    let head_attrs: Vec<(String, String)> = Vec::new();
    proof {
        broadcast use lemma_elems_model;

        assert(attrs_model(head_attrs@) =~= Seq::<(Seq<char>, Seq<char>)>::empty());
        assert(elems_model(children@) =~= head_spec(metadata@).content);
    }
    Tag { name: TagName::Head, attributes: head_attrs, content: children }
}

/// Builds the document's `body` tag.
pub fn body(outline: &Vec<Block>) -> (r: Tag)
    requires
        blocks_wf(blocks_model(outline@)),
    ensures
        r@ == body_spec(blocks_model(outline@)),
{
    let inner = blocks_to_elems(outline);
    let attrs: Vec<(String, String)> = Vec::new();
    proof {
        assert(attrs_model(attrs@) =~= Seq::<(Seq<char>, Seq<char>)>::empty());
    }
    Tag { name: TagName::Body, attributes: attrs, content: inner }
}

/// Builds the flat fragment for a block list.
pub fn output_fragment(fragment: &Vec<Block>) -> (r: Fragment)
    requires
        blocks_wf(blocks_model(fragment@)),
    ensures
        elems_model(r.0@) == blocks_elems_spec(blocks_model(fragment@), 0),
{
    Fragment(blocks_to_elems(fragment))
}

/// Builds the outline's fragment, and the abstract's when one is stored.
pub fn output(document: &Document) -> (r: (Fragment, Option<Fragment>))
    requires
        document_wf(document@),
    ensures
        elems_model(r.0.0@) == blocks_elems_spec(document@.outline, 0),
        match r.1 {
            Some(f) => document@.metadata.abstract_blocks matches Some(b) && elems_model(f.0@)
                == blocks_elems_spec(b, 0),
            None => document@.metadata.abstract_blocks is None,
        },
{
    let outline_fragment = output_fragment(&document.outline);
    let abstract_fragment = match &document.metadata.abstract_blocks {
        Some(blocks) => Some(output_fragment(blocks)),
        None => None,
    };
    (outline_fragment, abstract_fragment)
}

/// Builds the complete HTML document for a processed document.
pub fn output_document(document: &Document) -> (r: HtmlDocument)
    requires
        blocks_wf(blocks_model(document.outline@)),
    ensures
        r.0@ == output_document_spec(document@),
{
    let head_tag = head(&document.metadata);
    let body_tag = body(&document.outline);
    let mut children: Vec<Element> = Vec::new();
    children.push(Element::Tag(head_tag));
    children.push(Element::Tag(body_tag));
    let attrs: Vec<(String, String)> = Vec::new();
    proof {
        broadcast use lemma_elems_model;

        assert(attrs_model(attrs@) =~= Seq::<(Seq<char>, Seq<char>)>::empty());
        assert(elems_model(children@) =~= output_document_spec(document@).content);
    }
    HtmlDocument(Tag { name: TagName::Html, attributes: attrs, content: children })
}

/// Every document the engine produces can be emitted: its outline is well
/// formed (headings in range) and the reserved abstract slot is empty.
pub proof fn lemma_process_stream_well_formed(stream: Seq<crate::parser::ElementModel>)
    ensures
        crate::document::process_stream_spec(stream) matches Ok(d) ==> document_wf(d),
{
    crate::engine::lemma_root_spec_ok(stream, crate::document::metadata_default_model());
    match crate::engine::root_spec(stream, crate::document::metadata_default_model()) {
        Err(_) => {},
        Ok((m2, blocks)) => {
            assert(crate::engine::blocks_ok(blocks));
            assert forall|i: int| 0 <= i < blocks.len() implies block_wf(#[trigger] blocks[i]) by {
                assert(crate::engine::block_ok(blocks[i]));
            }
        },
    }
}

impl Block {
    /// Whether this block's heading level, if any, is in range.
    pub fn well_formed(&self) -> (r: bool)
        ensures
            r == block_wf(self@),
    {
        match &self.0 {
            BlockFormat::Heading(l) => 1 <= *l && *l <= 3,
            _ => true,
        }
    }
}

/// Whether every block of the list is well formed.
pub fn blocks_well_formed(v: &Vec<Block>) -> (r: bool)
    ensures
        r == blocks_wf(blocks_model(v@)),
{
    let ghost bm = blocks_model(v@);
    let mut i: usize = 0;
    proof {
        broadcast use lemma_blocks_model;

        assert(bm.len() == v@.len());
    }
    while i < v.len()
        invariant
            i <= v@.len(),
            bm == blocks_model(v@),
            bm.len() == v@.len(),
            forall|j: int| 0 <= j < i ==> block_wf(#[trigger] bm[j]),
        decreases v@.len() - i,
    {
        proof {
            broadcast use lemma_blocks_model;

            assert(bm[i as int] == v@[i as int].model());
        }
        if !v[i].well_formed() {
            proof {
                assert(!block_wf(bm[i as int]));
            }
            return false;
        }
        i = i + 1;
    }
    true
}

impl Document {
    /// Whether the document can be emitted: its outline and any stored
    /// abstract hold only headings with levels in range.
    pub fn well_formed(&self) -> (r: bool)
        ensures
            r == document_wf(self@),
    {
        if !blocks_well_formed(&self.outline) {
            return false;
        }
        match &self.metadata.abstract_blocks {
            Some(b) => blocks_well_formed(b),
            None => true,
        }
    }
}

} // verus!
