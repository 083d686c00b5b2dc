//! The document layer: the typed tree the engine produces.
//!
//! A document is an outline of [`Block`]s plus a [`Metadata`] record.  The
//! types here own all their text, so a document can outlive the source
//! buffer it was read from.

use vstd::prelude::*;

use crate::chars::comma_end;
use crate::chars::lemma_ws_end;
use crate::chars::lemma_ws_rev;
use crate::chars::scan_comma_end;
use crate::chars::scan_ws_end;
use crate::chars::scan_ws_rev;
use crate::chars::white;
use crate::chars::ws_end;
use crate::chars::ws_rev;

verus! {

/// The format of a top-level block.
#[derive(Debug)]
pub enum BlockFormat {
    /// An ordinary paragraph, rendered as `<p>`.
    Paragraph,
    /// A code block, rendered as `<pre><code>`.
    Code,
    /// A heading of the given level; only levels 1 to 3 are ever produced.
    Heading(usize),
    /// Pre-rendered content emitted without a wrapper.
    Raw,
}

/// The format of an inline span.
#[derive(Debug)]
pub enum SpanFormat {
    Code,
    Strong,
    Link { to: String, blank: bool },
}

/// An inline unit of a block.
#[derive(Debug)]
pub enum Span {
    /// Plain text, escaped on output.
    Text(String),
    /// A formatted run of inner spans.
    Format(SpanFormat, Vec<Span>),
    /// A forced line break.
    LineBreak,
    /// Pre-rendered HTML, emitted verbatim; building one is the trusted
    /// escape hatch of the whole pipeline.
    Raw(String),
}

/// A top-level structural unit: a format and its spans.
#[derive(Debug)]
pub struct Block(pub BlockFormat, pub Vec<Span>);

/// Mathematical model of a block format.
pub enum BlockFormatModel {
    Paragraph,
    Code,
    Heading(int),
    Raw,
}

/// Mathematical model of a span format.
pub enum SpanFormatModel {
    Code,
    Strong,
    Link { to: Seq<char>, blank: bool },
}

/// Mathematical model of a span.
pub enum SpanModel {
    Text(Seq<char>),
    Format(SpanFormatModel, Seq<SpanModel>),
    LineBreak,
    Raw(Seq<char>),
}

/// Mathematical model of a block.
pub struct BlockModel {
    pub format: BlockFormatModel,
    pub spans: Seq<SpanModel>,
}

impl BlockFormat {
    pub open spec fn model(self) -> BlockFormatModel {
        match self {
            BlockFormat::Paragraph => BlockFormatModel::Paragraph,
            BlockFormat::Code => BlockFormatModel::Code,
            BlockFormat::Heading(l) => BlockFormatModel::Heading(l as int),
            BlockFormat::Raw => BlockFormatModel::Raw,
        }
    }
}

impl SpanFormat {
    pub open spec fn model(self) -> SpanFormatModel {
        match self {
            SpanFormat::Code => SpanFormatModel::Code,
            SpanFormat::Strong => SpanFormatModel::Strong,
            SpanFormat::Link { to, blank } => SpanFormatModel::Link { to: to@, blank },
        }
    }
}

impl Span {
    pub open spec fn model(self) -> SpanModel
        decreases self,
    {
        match self {
            Span::Text(t) => SpanModel::Text(t@),
            Span::Format(f, inner) => SpanModel::Format(f.model(), spans_model(inner@)),
            Span::LineBreak => SpanModel::LineBreak,
            Span::Raw(t) => SpanModel::Raw(t@),
        }
    }
}

/// The model of a span list.
pub open spec fn spans_model(s: Seq<Span>) -> Seq<SpanModel>
    decreases s,
{
    if s.len() == 0 {
        Seq::empty()
    } else {
        seq![s[0].model()] + spans_model(s.subrange(1, s.len() as int))
    }
}

/// `spans_model` is the element-wise model of the span list.
pub broadcast proof fn lemma_spans_model(s: Seq<Span>)
    ensures
        (#[trigger] spans_model(s)).len() == s.len(),
        forall|i: int| 0 <= i < s.len() ==> spans_model(s)[i] == s[i].model(),
    decreases s.len(),
{
    if s.len() > 0 {
        lemma_spans_model(s.subrange(1, s.len() as int));
    }
}

/// Appending one span on the right extends the span-list model.
pub proof fn lemma_spans_model_push(v: Seq<Span>, e: Span)
    ensures
        spans_model(v.push(e)) == spans_model(v) + seq![e.model()],
{
    broadcast use lemma_spans_model;

    assert(spans_model(v.push(e)) =~= spans_model(v) + seq![e.model()]);
}

impl Block {
    pub open spec fn model(self) -> BlockModel {
        BlockModel { format: self.0.model(), spans: spans_model(self.1@) }
    }
}

/// The model of a block list.
pub open spec fn blocks_model(s: Seq<Block>) -> Seq<BlockModel>
    decreases s,
{
    if s.len() == 0 {
        Seq::empty()
    } else {
        seq![s[0].model()] + blocks_model(s.subrange(1, s.len() as int))
    }
}

/// `blocks_model` is the element-wise model of the block list.
pub broadcast proof fn lemma_blocks_model(s: Seq<Block>)
    ensures
        (#[trigger] blocks_model(s)).len() == s.len(),
        forall|i: int| 0 <= i < s.len() ==> blocks_model(s)[i] == s[i].model(),
    decreases s.len(),
{
    if s.len() > 0 {
        lemma_blocks_model(s.subrange(1, s.len() as int));
    }
}

/// Appending one block on the right extends the block-list model.
pub proof fn lemma_blocks_model_push(v: Seq<Block>, e: Block)
    ensures
        blocks_model(v.push(e)) == blocks_model(v) + seq![e.model()],
{
    broadcast use lemma_blocks_model;

    assert(blocks_model(v.push(e)) =~= blocks_model(v) + seq![e.model()]);
}

impl View for Span {
    type V = SpanModel;

    open spec fn view(&self) -> SpanModel {
        self.model()
    }
}

impl View for Block {
    type V = BlockModel;

    open spec fn view(&self) -> BlockModel {
        self.model()
    }
}

/// No two adjacent text spans: the block assembler's merger guarantee.
pub open spec fn no_adjacent_texts(s: Seq<SpanModel>) -> bool {
    forall|i: int|
        0 <= i && i + 1 < s.len() ==> !((#[trigger] s[i]) is Text && s[i + 1] is Text)
}

/// The model of a list of owned strings.
pub open spec fn strings_model(s: Seq<String>) -> Seq<Seq<char>>
    decreases s,
{
    if s.len() == 0 {
        Seq::empty()
    } else {
        seq![s[0]@] + strings_model(s.subrange(1, s.len() as int))
    }
}

/// `strings_model` is the element-wise view of the string list.
pub broadcast proof fn lemma_strings_model(s: Seq<String>)
    ensures
        (#[trigger] strings_model(s)).len() == s.len(),
        forall|i: int| 0 <= i < s.len() ==> strings_model(s)[i] == s[i]@,
    decreases s.len(),
{
    if s.len() > 0 {
        lemma_strings_model(s.subrange(1, s.len() as int));
    }
}

/// The text with its leading and trailing whitespace removed.
pub open spec fn trim_spec(s: Seq<char>) -> Seq<char> {
    let a = ws_end(s, 0);
    if a == s.len() {
        Seq::empty()
    } else {
        let b = ws_rev(s, s.len() as int);
        s.subrange(a, if b < a { a } else { b })
    }
}

/// The text split on commas, each piece trimmed.
pub open spec fn split_trim_spec(s: Seq<char>, pos: int) -> Seq<Seq<char>>
    decreases s.len() - pos
        when 0 <= pos <= s.len()
{
    let e = comma_end(s, pos);
    let ec = if e < pos {
        pos
    } else if e > s.len() {
        s.len() as int
    } else {
        e
    };
    if ec == s.len() {
        seq![trim_spec(s.subrange(pos, ec))]
    } else {
        seq![trim_spec(s.subrange(pos, ec))] + split_trim_spec(s, ec + 1)
    }
}

/// Removes leading and trailing whitespace.
pub fn trim_str(s: &str) -> (r: String)
    ensures
        r@ == trim_spec(s@),
{
    let n = s.unicode_len();
    let a = scan_ws_end(s, n, 0);
    if a == n {
        let empty = String::new();
        proof {
            assert(empty@ =~= trim_spec(s@));
        }
        return empty;
    }
    let b = scan_ws_rev(s, n, n);
    proof {
        lemma_ws_end(s@, 0);
        lemma_ws_rev(s@, n as int);
        if b <= a {
            assert(white(s@[a as int]));
            assert(false);
        }
    }
    s.substring_char(a, b).to_owned()
}

/// Splits on commas and trims each piece; the result of `Field::from` for
/// the keyword list.
pub fn split_trim(s: &str) -> (r: Vec<String>)
    ensures
        strings_model(r@) == split_trim_spec(s@, 0),
{
    let n = s.unicode_len();
    let mut acc: Vec<String> = Vec::new();
    let mut cur: usize = 0;
    proof {
        assert(strings_model(acc@) =~= Seq::<Seq<char>>::empty());
    }
    loop
        invariant
            cur <= n,
            n == s@.len(),
            split_trim_spec(s@, 0) == strings_model(acc@) + split_trim_spec(s@, cur as int),
        decreases n - cur,
    {
        let e = scan_comma_end(s, n, cur);
        let piece = trim_str(s.substring_char(cur, e));
        let ghost old_acc = acc@;
        acc.push(piece);
        proof {
            broadcast use lemma_strings_model;

            assert(strings_model(acc@) =~= strings_model(old_acc) + seq![piece@]);
        }
        if e == n {
            proof {
                assert(split_trim_spec(s@, cur as int) =~= seq![piece@]);
                assert(strings_model(old_acc) + seq![piece@] =~= strings_model(acc@));
                assert(strings_model(acc@) + Seq::<Seq<char>>::empty() =~= strings_model(acc@));
                assert(split_trim_spec(s@, 0) =~= strings_model(acc@));
            }
            return acc;
        }
        proof {
            assert(split_trim_spec(s@, cur as int) == seq![piece@] + split_trim_spec(
                s@,
                e as int + 1,
            ));
            assert(strings_model(old_acc) + (seq![piece@] + split_trim_spec(s@, e as int + 1))
                =~= strings_model(acc@) + split_trim_spec(s@, e as int + 1));
        }
        cur = e + 1;
    }
}

/// A metadata slot.
///
/// Every slot can say whether it was already populated and can be built
/// from the raw text of a `meta` command.
pub trait Field: Sized {
    fn is_set(&self) -> bool;

    fn from_text(s: &str) -> Self;
}

impl Field for Option<String> {
    /// Whether the slot holds a value.
    fn is_set(&self) -> (r: bool)
        ensures
            r == self.is_some(),
    {
        self.is_some()
    }

    /// The raw text, kept as it is.
    fn from_text(s: &str) -> (r: Self)
        ensures
            r matches Some(t) && t@ == s@,
    {
        Some(s.to_owned())
    }
}

impl Field for bool {
    /// A boolean slot never counts as populated.
    fn is_set(&self) -> (r: bool)
        ensures
            r == false,
    {
        false
    }

    /// Any invocation sets the flag.
    fn from_text(_s: &str) -> (r: Self)
        ensures
            r == true,
    {
        true
    }
}

impl Field for Vec<String> {
    /// Whether any entry was stored.
    fn is_set(&self) -> (r: bool)
        ensures
            r == (self@.len() > 0),
    {
        self.len() > 0
    }

    /// The text split on commas, each entry trimmed.
    fn from_text(s: &str) -> (r: Self)
        ensures
            strings_model(r@) == split_trim_spec(s@, 0),
    {
        split_trim(s)
    }
}

/// Mathematical model of the metadata record.
pub struct MetadataModel {
    pub title: Option<Seq<char>>,
    pub author: Option<Seq<char>>,
    pub date: Option<Seq<char>>,
    pub keywords: Seq<Seq<char>>,
    pub draft: bool,
    pub abstract_blocks: Option<Seq<BlockModel>>,
}

/// The document's collected metadata.
///
/// The `abstract_blocks` slot is reserved: the `abstract` command is
/// evaluated into the outline today, so the slot stays `None`.
#[derive(Debug)]
pub struct Metadata {
    pub title: Option<String>,
    pub author: Option<String>,
    pub date: Option<String>,
    pub keywords: Vec<String>,
    pub draft: bool,
    pub abstract_blocks: Option<Vec<Block>>,
}

impl Metadata {
    pub open spec fn model(self) -> MetadataModel {
        MetadataModel {
            title: match self.title {
                Some(t) => Some(t@),
                None => None,
            },
            author: match self.author {
                Some(t) => Some(t@),
                None => None,
            },
            date: match self.date {
                Some(t) => Some(t@),
                None => None,
            },
            keywords: strings_model(self.keywords@),
            draft: self.draft,
            abstract_blocks: match self.abstract_blocks {
                Some(b) => Some(blocks_model(b@)),
                None => None,
            },
        }
    }
}

impl View for Metadata {
    type V = MetadataModel;

    open spec fn view(&self) -> MetadataModel {
        self.model()
    }
}

/// The model of a freshly created metadata record: everything unset.
pub open spec fn metadata_default_model() -> MetadataModel {
    MetadataModel {
        title: None,
        author: None,
        date: None,
        keywords: Seq::empty(),
        draft: false,
        abstract_blocks: None,
    }
}

impl Default for Metadata {
    /// A record with no slot populated.
    fn default() -> (r: Metadata)
        ensures
            r@ == metadata_default_model(),
    {
        let r = Metadata {
            title: None,
            author: None,
            date: None,
            keywords: Vec::new(),
            draft: false,
            abstract_blocks: None,
        };
        proof {
            assert(strings_model(r.keywords@) =~= Seq::<Seq<char>>::empty());
        }
        r
    }
}

/// Mathematical model of a document.
pub struct DocumentModel {
    pub outline: Seq<BlockModel>,
    pub metadata: MetadataModel,
}

/// A processed document: its outline of blocks and its metadata.
#[derive(Debug)]
pub struct Document {
    pub outline: Vec<Block>,
    pub metadata: Metadata,
}

impl Document {
    pub open spec fn model(self) -> DocumentModel {
        DocumentModel { outline: blocks_model(self.outline@), metadata: self.metadata.model() }
    }
}

impl View for Document {
    type V = DocumentModel;

    open spec fn view(&self) -> DocumentModel {
        self.model()
    }
}

/// A failure anywhere in the pipeline: in the parser or in the engine.
#[derive(Clone, Copy, Debug, PartialEq, Eq, Structural)]
pub enum ProcessError {
    Parse(crate::parser::ParseError),
    Engine(crate::engine::EngineError),
}

/// What processing a whole stream yields: the assembled outline and the
/// collected metadata, starting from an empty record.
pub open spec fn process_stream_spec(stream: Seq<crate::parser::ElementModel>) -> Result<
    DocumentModel,
    crate::engine::EngineError,
> {
    match crate::engine::root_spec(stream, metadata_default_model()) {
        Err(e) => Err(e),
        Ok((m, blocks)) => Ok(DocumentModel { outline: blocks, metadata: m }),
    }
}

/// Evaluates a parsed stream into a document.
pub fn process_stream(stream: crate::parser::Stream) -> (r: Result<
    Document,
    crate::engine::EngineError,
>)
    ensures
        match r {
            Ok(d) => process_stream_spec(crate::parser::stream_model(stream@)) == Ok::<
                _,
                crate::engine::EngineError,
            >(d@),
            Err(e) => process_stream_spec(crate::parser::stream_model(stream@)) == Err::<
                DocumentModel,
                _,
            >(e),
        },
{
    let mut metadata = Metadata::default();
    let outline = match crate::engine::root(&mut metadata, &stream) {
        Ok(x) => x,
        Err(e) => {
            return Err(e);
        },
    };
    Ok(Document { outline, metadata })
}

/// What processing a fragment stream yields: one paragraph of its inline
/// spans.
pub open spec fn process_fragment_stream_spec(stream: Seq<crate::parser::ElementModel>) -> Result<
    Seq<BlockModel>,
    crate::engine::EngineError,
> {
    match crate::commands::process_all_spec(stream, crate::engine::ProcMode::Inline) {
        Err(e) => Err(e),
        Ok(spans) => Ok(seq![BlockModel { format: BlockFormatModel::Paragraph, spans }]),
    }
}

/// Evaluates a parsed stream as a single inline paragraph.
pub fn process_fragment_stream(stream: crate::parser::Stream) -> (r: Result<
    Vec<Block>,
    crate::engine::EngineError,
>)
    ensures
        match r {
            Ok(v) => process_fragment_stream_spec(crate::parser::stream_model(stream@)) == Ok::<
                _,
                crate::engine::EngineError,
            >(blocks_model(v@)),
            Err(e) => process_fragment_stream_spec(crate::parser::stream_model(stream@)) == Err::<
                Seq<BlockModel>,
                _,
            >(e),
        },
{
    let spans = match crate::engine::process_all(&stream, crate::engine::ProcMode::Inline) {
        Ok(x) => x,
        Err(e) => {
            return Err(e);
        },
    };
    let mut v: Vec<Block> = Vec::new();
    v.push(Block(BlockFormat::Paragraph, spans));
    proof {
        broadcast use lemma_blocks_model;

        assert(blocks_model(v@) =~= seq![v@[0].model()]);
    }
    Ok(v)
}

/// What parsing and fragment-processing a text yields.
pub open spec fn process_fragment_spec(s: Seq<char>) -> Result<Seq<BlockModel>, ProcessError> {
    match crate::parser::document_spec(s) {
        Err(e) => Err(ProcessError::Parse(e)),
        Ok(stream) => match process_fragment_stream_spec(stream) {
            Err(e) => Err(ProcessError::Engine(e)),
            Ok(blocks) => Ok(blocks),
        },
    }
}

/// Parses a text and evaluates it as a single inline paragraph.
pub fn process_fragment(fragment: &str) -> (r: Result<Vec<Block>, ProcessError>)
    ensures
        match r {
            Ok(v) => process_fragment_spec(fragment@) == Ok::<_, ProcessError>(blocks_model(v@)),
            Err(e) => process_fragment_spec(fragment@) == Err::<Seq<BlockModel>, _>(e),
        },
{
    let stream = match crate::parser::document(fragment) {
        Ok(x) => x,
        Err(e) => {
            return Err(ProcessError::Parse(e));
        },
    };
    match process_fragment_stream(stream) {
        Ok(v) => Ok(v),
        Err(e) => Err(ProcessError::Engine(e)),
    }
}

} // verus!
