//! In-memory HTML documents and their rendering to text.
//!
//! A [`Tag`] carries one name from the closed set [`TagName`], ordered
//! attributes, and child elements; only names from that set can ever be
//! built, which keeps emission well formed by construction.  Rendering
//! escapes the text of [`Element::Text`] nodes (`&`, `<`, `>`, `"`, `'`
//! become entities) and writes attributes in insertion order; a tag
//! without children renders in the self-closing form.  [`RawHTML`] bypasses
//! escaping: building one is the single trusted path into the output.

use vstd::prelude::*;

verus! {

/// The closed set of tag identifiers the builder accepts.
#[derive(Clone, Copy, Debug, PartialEq, Eq, Structural)]
pub enum TagName {
    Html,
    Head,
    Meta,
    Title,
    Link,
    Body,
    A,
    P,
    Div,
    Span,
    Pre,
    Code,
    H1,
    H2,
    H3,
    H4,
    H5,
    H6,
    Br,
    Strong,
    Nav,
    Main,
    Article,
    Header,
    Footer,
    Script,
    Svg,
    Use,
}

/// The text of a tag identifier.
pub open spec fn tag_name_spec(n: TagName) -> Seq<char> {
    match n {
        TagName::Html => "html"@,
        TagName::Head => "head"@,
        TagName::Meta => "meta"@,
        TagName::Title => "title"@,
        TagName::Link => "link"@,
        TagName::Body => "body"@,
        TagName::A => "a"@,
        TagName::P => "p"@,
        TagName::Div => "div"@,
        TagName::Span => "span"@,
        TagName::Pre => "pre"@,
        TagName::Code => "code"@,
        TagName::H1 => "h1"@,
        TagName::H2 => "h2"@,
        TagName::H3 => "h3"@,
        TagName::H4 => "h4"@,
        TagName::H5 => "h5"@,
        TagName::H6 => "h6"@,
        TagName::Br => "br"@,
        TagName::Strong => "strong"@,
        TagName::Nav => "nav"@,
        TagName::Main => "main"@,
        TagName::Article => "article"@,
        TagName::Header => "header"@,
        TagName::Footer => "footer"@,
        TagName::Script => "script"@,
        TagName::Svg => "svg"@,
        TagName::Use => "use"@,
    }
}

impl TagName {
    /// The tag identifier as text.
    pub fn as_text(self) -> (r: &'static str)
        ensures
            r@ == tag_name_spec(self),
    {
        match self {
            TagName::Html => "html",
            TagName::Head => "head",
            TagName::Meta => "meta",
            TagName::Title => "title",
            TagName::Link => "link",
            TagName::Body => "body",
            TagName::A => "a",
            TagName::P => "p",
            TagName::Div => "div",
            TagName::Span => "span",
            TagName::Pre => "pre",
            TagName::Code => "code",
            TagName::H1 => "h1",
            TagName::H2 => "h2",
            TagName::H3 => "h3",
            TagName::H4 => "h4",
            TagName::H5 => "h5",
            TagName::H6 => "h6",
            TagName::Br => "br",
            TagName::Strong => "strong",
            TagName::Nav => "nav",
            TagName::Main => "main",
            TagName::Article => "article",
            TagName::Header => "header",
            TagName::Footer => "footer",
            TagName::Script => "script",
            TagName::Svg => "svg",
            TagName::Use => "use",
        }
    }
}

/// An in-memory HTML tag: a name, ordered attributes, and children.
#[derive(Debug)]
pub struct Tag {
    pub name: TagName,
    pub attributes: Vec<(String, String)>,
    pub content: Vec<Element>,
}

/// Pre-rendered HTML text, emitted verbatim.
///
/// Building one bypasses all escaping, so every construction site vouches
/// for its content itself; the engine's `raw` command is the only
/// sanctioned path here.
#[derive(Debug)]
pub struct RawHTML(pub String);

/// A flat group of elements rendered without a wrapper.
#[derive(Debug)]
pub struct Fragment(pub Vec<Element>);

/// Any value that can be rendered to the output text.
#[derive(Debug)]
pub enum Element {
    /// A tag with attributes and children.
    Tag(Tag),
    /// Plain text, escaped on render.
    Text(String),
    /// Pre-rendered HTML, emitted verbatim.
    Raw(RawHTML),
    /// A flat concatenation of sibling elements.
    Fragment(Fragment),
}

/// Mathematical model of a tag.
pub struct TagModel {
    pub name: TagName,
    pub attributes: Seq<(Seq<char>, Seq<char>)>,
    pub content: Seq<HtmlModel>,
}

/// Mathematical model of a renderable element.
pub enum HtmlModel {
    Tag(TagModel),
    Text(Seq<char>),
    Raw(Seq<char>),
    Fragment(Seq<HtmlModel>),
}

/// The model of an attribute list.
pub open spec fn attrs_model(s: Seq<(String, String)>) -> Seq<(Seq<char>, Seq<char>)>
    decreases s,
{
    if s.len() == 0 {
        Seq::empty()
    } else {
        seq![(s[0].0@, s[0].1@)] + attrs_model(s.subrange(1, s.len() as int))
    }
}

/// `attrs_model` is the element-wise view of the attribute list.
pub broadcast proof fn lemma_attrs_model(s: Seq<(String, String)>)
    ensures
        (#[trigger] attrs_model(s)).len() == s.len(),
        forall|i: int| 0 <= i < s.len() ==> attrs_model(s)[i] == (s[i].0@, s[i].1@),
    decreases s.len(),
{
    if s.len() > 0 {
        lemma_attrs_model(s.subrange(1, s.len() as int));
    }
}

impl Tag {
    pub open spec fn model(self) -> TagModel
        decreases self,
    {
        TagModel {
            name: self.name,
            attributes: attrs_model(self.attributes@),
            content: elems_model(self.content@),
        }
    }
}

impl Element {
    pub open spec fn model(self) -> HtmlModel
        decreases self,
    {
        match self {
            Element::Tag(t) => HtmlModel::Tag(t.model()),
            Element::Text(t) => HtmlModel::Text(t@),
            Element::Raw(r) => HtmlModel::Raw(r.0@),
            Element::Fragment(f) => HtmlModel::Fragment(elems_model(f.0@)),
        }
    }
}

/// The model of an element list.
pub open spec fn elems_model(s: Seq<Element>) -> Seq<HtmlModel>
    decreases s,
{
    if s.len() == 0 {
        Seq::empty()
    } else {
        seq![s[0].model()] + elems_model(s.subrange(1, s.len() as int))
    }
}

/// `elems_model` is the element-wise model of the list.
pub broadcast proof fn lemma_elems_model(s: Seq<Element>)
    ensures
        (#[trigger] elems_model(s)).len() == s.len(),
        forall|i: int| 0 <= i < s.len() ==> elems_model(s)[i] == s[i].model(),
    decreases s.len(),
{
    if s.len() > 0 {
        lemma_elems_model(s.subrange(1, s.len() as int));
    }
}

/// Appending one element on the right extends the list model.
pub proof fn lemma_elems_model_push(v: Seq<Element>, e: Element)
    ensures
        elems_model(v.push(e)) == elems_model(v) + seq![e.model()],
{
    broadcast use lemma_elems_model;

    assert(elems_model(v.push(e)) =~= elems_model(v) + seq![e.model()]);
}

impl View for Tag {
    type V = TagModel;

    open spec fn view(&self) -> TagModel {
        self.model()
    }
}

impl View for Element {
    type V = HtmlModel;

    open spec fn view(&self) -> HtmlModel {
        self.model()
    }
}

impl Tag {
    /// Builds a tag from its parts.
    pub fn build(name: TagName, attributes: Vec<(String, String)>, content: Vec<Element>) -> (r:
        Tag)
        ensures
            r@ == (TagModel {
                name,
                attributes: attrs_model(attributes@),
                content: elems_model(content@),
            }),
    {
        Tag { name, attributes, content }
    }
}

impl Fragment {
    /// An empty fragment.
    pub fn empty() -> (r: Fragment)
        ensures
            r.0@.len() == 0,
    {
        Fragment(Vec::new())
    }

    /// A fragment over the given elements.
    pub fn from(inner: Vec<Element>) -> (r: Fragment)
        ensures
            r.0 == inner,
    {
        Fragment(inner)
    }
}

impl RawHTML {
    /// Wraps pre-rendered HTML; the caller vouches that the text is safe.
    pub fn from(s: String) -> (r: RawHTML)
        ensures
            r.0 == s,
    {
        RawHTML(s)
    }
}

/// Conversion of builder values into a generic element.
pub trait IntoElementBox: Sized {
    fn into_element_box(self) -> Element;
}

impl IntoElementBox for Tag {
    /// A tag is an element of its own.
    fn into_element_box(self) -> (r: Element)
        ensures
            r@ == HtmlModel::Tag(self@),
    {
        Element::Tag(self)
    }
}

impl IntoElementBox for String {
    /// Text becomes an escaped text node.
    fn into_element_box(self) -> (r: Element)
        ensures
            r@ == HtmlModel::Text(self@),
    {
        Element::Text(self)
    }
}

impl IntoElementBox for Fragment {
    /// A fragment renders as its children, flat.
    fn into_element_box(self) -> (r: Element)
        ensures
            r@ == HtmlModel::Fragment(elems_model(self.0@)),
    {
        Element::Fragment(self)
    }
}

impl IntoElementBox for RawHTML {
    /// Raw HTML stays an unescaped node.
    fn into_element_box(self) -> (r: Element)
        ensures
            r@ == HtmlModel::Raw(self.0@),
    {
        Element::Raw(self)
    }
}

impl IntoElementBox for Option<Tag> {
    /// A missing tag becomes an empty fragment.
    fn into_element_box(self) -> (r: Element)
        ensures
            r@ == (match self {
                Some(t) => HtmlModel::Tag(t@),
                None => HtmlModel::Fragment(Seq::empty()),
            }),
    {
        match self {
            Some(t) => Element::Tag(t),
            None => {
                let v: Vec<Element> = Vec::new();
                proof {
                    assert(elems_model(v@) =~= Seq::<HtmlModel>::empty());
                }
                Element::Fragment(Fragment(v))
            },
        }
    }
}

/// What one character escapes to in a text node.
pub open spec fn escape_char(c: char) -> Seq<char> {
    if c == '&' {
        "&amp;"@
    } else if c == '<' {
        "&lt;"@
    } else if c == '>' {
        "&gt;"@
    } else if c == '"' {
        "&quot;"@
    } else if c == '\'' {
        "&#39;"@
    } else {
        seq![c]
    }
}

/// The text from `pos` on with every character escaped.
pub open spec fn escape_text_spec(s: Seq<char>, pos: int) -> Seq<char>
    decreases s.len() - pos
        when 0 <= pos <= s.len()
{
    if pos == s.len() {
        Seq::empty()
    } else {
        escape_char(s[pos]) + escape_text_spec(s, pos + 1)
    }
}

/// Escapes text for safe emission inside an HTML element.
pub fn escape_text(s: &str) -> (r: String)
    ensures
        r@ == escape_text_spec(s@, 0),
{
    let n = s.unicode_len();
    let mut acc = String::new();
    let mut cur: usize = 0;
    proof {
        assert(acc@ =~= Seq::<char>::empty());
    }
    while cur < n
        invariant
            cur <= n,
            n == s@.len(),
            escape_text_spec(s@, 0) == acc@ + escape_text_spec(s@, cur as int),
        decreases n - cur,
    {
        let ghost old_acc = acc@;
        let c = s.get_char(cur);
        if c == '&' {
            acc.append("&amp;");
        } else if c == '<' {
            acc.append("&lt;");
        } else if c == '>' {
            acc.append("&gt;");
        } else if c == '"' {
            acc.append("&quot;");
        } else if c == '\'' {
            acc.append("&#39;");
        } else {
            acc.append(s.substring_char(cur, cur + 1));
            proof {
                assert(s@.subrange(cur as int, cur as int + 1) =~= seq![s@[cur as int]]);
            }
        }
        proof {
            assert(acc@ == old_acc + escape_char(s@[cur as int]));
            assert(old_acc + (escape_char(s@[cur as int]) + escape_text_spec(s@, cur as int + 1))
                =~= acc@ + escape_text_spec(s@, cur as int + 1));
        }
        cur = cur + 1;
    }
    proof {
        assert(acc@ + Seq::<char>::empty() =~= acc@);
    }
    acc
}

/// How one attribute renders: a space, the name, `="`, the value, `"`.
///
/// Attribute values are emitted as given; callers pass already-safe text.
pub open spec fn render_attr(a: (Seq<char>, Seq<char>)) -> Seq<char> {
    " "@ + a.0 + "=\""@ + a.1 + "\""@
}

/// The attributes from `i` on, rendered in insertion order.
pub open spec fn render_attrs(attrs: Seq<(Seq<char>, Seq<char>)>, i: int) -> Seq<char>
    decreases attrs.len() - i
        when 0 <= i <= attrs.len()
{
    if i == attrs.len() {
        Seq::empty()
    } else {
        render_attr(attrs[i]) + render_attrs(attrs, i + 1)
    }
}

/// How an element renders to text.
///
/// Text is escaped, raw HTML is copied, a fragment is the flat
/// concatenation of its children, and a tag is `<name attrs>children</name>`
/// or the self-closing `<name attrs />` when it has no children.
pub open spec fn render_elem(e: HtmlModel) -> Seq<char>
    decreases e, 0int,
{
    match e {
        HtmlModel::Text(t) => escape_text_spec(t, 0),
        HtmlModel::Raw(r) => r,
        HtmlModel::Fragment(xs) => render_seq(xs, 0),
        HtmlModel::Tag(t) => {
            let open_part = "<"@ + tag_name_spec(t.name) + render_attrs(t.attributes, 0);
            if t.content.len() == 0 {
                open_part + " />"@
            } else {
                open_part + ">"@ + render_seq(t.content, 0) + "</"@ + tag_name_spec(t.name) + ">"@
            }
        },
    }
}

/// The elements from `i` on, rendered in order.
pub open spec fn render_seq(xs: Seq<HtmlModel>, i: int) -> Seq<char>
    decreases xs, xs.len() - i,
        when 0 <= i <= xs.len()
{
    if i == xs.len() {
        Seq::empty()
    } else {
        render_elem(xs[i]) + render_seq(xs, i + 1)
    }
}

/// Renders the attributes from `i` on into `out`.
fn render_attrs_into(attrs: &Vec<(String, String)>, out: &mut String)
    ensures
        final(out)@ == old(out)@ + render_attrs(attrs_model(attrs@), 0),
{
    let ghost am = attrs_model(attrs@);
    let ghost base = old(out)@;
    let mut i: usize = 0;
    proof {
        broadcast use lemma_attrs_model;

        assert(am.len() == attrs@.len());
        assert(base + Seq::<char>::empty() =~= base);
    }
    while i < attrs.len()
        invariant
            i <= attrs@.len(),
            am == attrs_model(attrs@),
            am.len() == attrs@.len(),
            base + render_attrs(am, 0) == out@ + render_attrs(am, i as int),
        decreases attrs@.len() - i,
    {
        let ghost before = out@;
        out.append(" ");
        out.append(attrs[i].0.as_str());
        out.append("=\"");
        out.append(attrs[i].1.as_str());
        out.append("\"");
        proof {
            broadcast use lemma_attrs_model;

            assert(out@ == before + render_attr(am[i as int]));
            assert(before + (render_attr(am[i as int]) + render_attrs(am, i as int + 1)) =~= out@
                + render_attrs(am, i as int + 1));
        }
        i = i + 1;
    }
    proof {
        assert(out@ + Seq::<char>::empty() =~= out@);
    }
}

/// Renders one element into `out`.
fn render_into(e: &Element, out: &mut String)
    ensures
        final(out)@ == old(out)@ + render_elem(e@),
    decreases e, 0int,
{
    match e {
        Element::Text(t) => {
            let piece = escape_text(t.as_str());
            out.append(piece.as_str());
        },
        Element::Raw(r) => {
            out.append(r.0.as_str());
        },
        Element::Fragment(f) => {
            render_children(&f.0, out);
        },
        Element::Tag(t) => {
            render_tag_into(t, out);
        },
    }
}

/// Renders one tag into `out`.
fn render_tag_into(t: &Tag, out: &mut String)
    ensures
        final(out)@ == old(out)@ + render_elem(HtmlModel::Tag(t@)),
    decreases t, 0int,
{
    out.append("<");
    out.append(t.name.as_text());
    render_attrs_into(&t.attributes, out);
    if t.content.len() == 0 {
        out.append(" />");
        proof {
            broadcast use lemma_elems_model;

            assert(elems_model(t.content@).len() == 0);
        }
    } else {
        out.append(">");
        render_children(&t.content, out);
        out.append("</");
        out.append(t.name.as_text());
        out.append(">");
        proof {
            broadcast use lemma_elems_model;

            assert(elems_model(t.content@).len() != 0);
        }
    }
}

/// Renders a list of elements into `out`, in order.
fn render_children(children: &Vec<Element>, out: &mut String)
    ensures
        final(out)@ == old(out)@ + render_seq(elems_model(children@), 0),
    decreases children, 1int,
{
    let ghost cm = elems_model(children@);
    let ghost base = old(out)@;
    let mut i: usize = 0;
    proof {
        broadcast use lemma_elems_model;

        assert(cm.len() == children@.len());
        assert(base + Seq::<char>::empty() =~= base);
    }
    while i < children.len()
        invariant
            i <= children@.len(),
            cm == elems_model(children@),
            cm.len() == children@.len(),
            base + render_seq(cm, 0) == out@ + render_seq(cm, i as int),
        decreases children@.len() - i,
    {
        let ghost before = out@;
        render_into(&children[i], out);
        proof {
            broadcast use lemma_elems_model;

            assert(out@ == before + render_elem(cm[i as int]));
            assert(before + (render_elem(cm[i as int]) + render_seq(cm, i as int + 1)) =~= out@
                + render_seq(cm, i as int + 1));
        }
        i = i + 1;
    }
    proof {
        assert(out@ + Seq::<char>::empty() =~= out@);
    }
}

impl Element {
    /// Renders this element to text.
    pub fn to_text(&self) -> (r: String)
        ensures
            r@ == render_elem(self@),
    {
        let mut out = String::new();
        render_into(self, &mut out);
        proof {
            assert(Seq::<char>::empty() + render_elem(self@) =~= render_elem(self@));
        }
        out
    }
}

impl Fragment {
    /// Renders this fragment to text: its children, flat.
    pub fn to_text(&self) -> (r: String)
        ensures
            r@ == render_seq(elems_model(self.0@), 0),
    {
        let mut out = String::new();
        render_children(&self.0, &mut out);
        proof {
            assert(Seq::<char>::empty() + render_seq(elems_model(self.0@), 0) =~= render_seq(
                elems_model(self.0@),
                0,
            ));
        }
        out
    }
}

/// What a whole document renders to: the doctype line, then the root tag.
pub open spec fn render_document_spec(t: TagModel) -> Seq<char> {
    "<!DOCTYPE html>\n"@ + render_elem(HtmlModel::Tag(t))
}

/// Rendering any document produces text that starts exactly with
/// `<!DOCTYPE html>`.
pub proof fn lemma_doctype_prefix(t: TagModel)
    ensures
        render_document_spec(t).len() >= 15,
        render_document_spec(t).subrange(0, 15) == "<!DOCTYPE html>"@,
{
    reveal_strlit("<!DOCTYPE html>\n");
    reveal_strlit("<!DOCTYPE html>");
    assert(render_document_spec(t).subrange(0, 15) =~= "<!DOCTYPE html>"@);
}

/// Escaped text never holds a raw `<`, `>`, `"` or `'`: every occurrence
/// was turned into an entity.
pub proof fn lemma_escape_no_specials(s: Seq<char>, pos: int)
    requires
        0 <= pos <= s.len(),
    ensures
        forall|i: int|
            0 <= i < escape_text_spec(s, pos).len() ==> {
                let c = #[trigger] escape_text_spec(s, pos)[i];
                c != '<' && c != '>' && c != '"' && c != '\''
            },
    decreases s.len() - pos,
{
    reveal_strlit("&amp;");
    reveal_strlit("&lt;");
    reveal_strlit("&gt;");
    reveal_strlit("&quot;");
    reveal_strlit("&#39;");
    if pos < s.len() {
        lemma_escape_no_specials(s, pos + 1);
        assert forall|i: int| 0 <= i < escape_char(s[pos]).len() implies {
            let c = #[trigger] escape_char(s[pos])[i];
            c != '<' && c != '>' && c != '"' && c != '\''
        } by {
            if s[pos] == '&' {
            } else if s[pos] == '<' {
            } else if s[pos] == '>' {
            } else if s[pos] == '"' {
            } else if s[pos] == '\'' {
            } else {
            }
        }
        assert forall|i: int| 0 <= i < escape_text_spec(s, pos).len() implies {
            let c = #[trigger] escape_text_spec(s, pos)[i];
            c != '<' && c != '>' && c != '"' && c != '\''
        } by {
            let piece = escape_char(s[pos]);
            if i < piece.len() {
                assert(escape_text_spec(s, pos)[i] == piece[i]);
            } else {
                assert(escape_text_spec(s, pos)[i] == escape_text_spec(s, pos + 1)[i
                    - piece.len()]);
            }
        }
    }
}

/// A complete HTML document: the root `html` tag, rendered behind a
/// doctype line.
#[derive(Debug)]
pub struct HtmlDocument(pub Tag);

impl HtmlDocument {
    /// Renders the document: `<!DOCTYPE html>`, a newline, the root tag.
    pub fn to_text(&self) -> (r: String)
        ensures
            r@ == render_document_spec(self.0@),
    {
        let mut out = String::new();
        out.append("<!DOCTYPE html>\n");
        render_tag_into(&self.0, &mut out);
        proof {
            assert(Seq::<char>::empty() + "<!DOCTYPE html>\n"@ =~= "<!DOCTYPE html>\n"@);
        }
        out
    }
}

} // verus!
