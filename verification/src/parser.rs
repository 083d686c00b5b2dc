//! The parser: turns a source text into a syntax tree of [`Element`] nodes.
//!
//! The surface language is free text interleaved with commands.  A command
//! is written `\name`, optionally with a namespace (`\ns:name`), bracketed
//! parameters (`\name[a, b = c]`) and braced content (`\name{...}`), or in
//! the block form `\begin{name} ... \end{name}`.  `%` starts a comment that
//! runs to the end of the line, and a backslash before one of `{`, `}`,
//! `%`, `\` or a newline escapes that single character.
//!
//! The whole grammar is also written down as spec functions
//! ([`stream_spec`], [`command_spec`], [`params_spec`], [`document_spec`]);
//! the executable parser is proved to return exactly what those functions
//! describe, so parsing is a mathematical function of the input text.

use vstd::prelude::*;

use crate::chars::bareword_end;
use crate::chars::comment_end;
use crate::chars::ident_end;
use crate::chars::lemma_comment_end;
use crate::chars::lemma_ident_end;
use crate::chars::lemma_raw_end;
use crate::chars::raw_end;
use crate::chars::raw_stop;
use crate::chars::scan_bareword_end;
use crate::chars::scan_comment_end;
use crate::chars::scan_ident_end;
use crate::chars::scan_raw_end;
use crate::chars::scan_ws_end;
use crate::chars::str_eq;
use crate::chars::ws_end;

verus! {

/// A fatal parse failure.
#[derive(Clone, Copy, Debug, PartialEq, Eq, Structural)]
pub enum ParseError {
    /// The top-level parse ended with unconsumed input (a stray `}`).
    ExtraTrailing,
    /// `\begin{A}` was paired with `\end{B}` where `A != B`, or an `\end`
    /// appeared while no block was open.
    MismatchedBlock,
    /// The end of the input was reached while a block or a braced content
    /// group was still open.
    UnclosedBlock,
    /// A `\` was not followed by an identifier, an escapable character, or
    /// a newline, or a command's header was malformed.
    MalformedCommand,
}

/// Mathematical model of a parameter value.
pub enum ParamValueModel {
    Flag,
    Text(Seq<char>),
    Stream(Seq<ElementModel>),
}

/// Mathematical model of one named parameter.
pub struct ParamModel {
    pub name: Seq<char>,
    pub value: ParamValueModel,
}

/// Mathematical model of a command name.
pub struct CommandNameModel {
    pub name: Seq<char>,
    pub namespace: Option<Seq<char>>,
}

/// Mathematical model of a command invocation.
pub struct CommandModel {
    pub name: Seq<char>,
    pub namespace: Option<Seq<char>>,
    pub params: Seq<ParamModel>,
    pub content: Seq<ElementModel>,
    pub block: bool,
}

/// Mathematical model of a syntax element.
pub enum ElementModel {
    Raw(Seq<char>),
    Comment(Seq<char>),
    LineBreak,
    Command(CommandModel),
}

/// The value of a command parameter.
///
/// * `Flag` for a bare parameter, like `[foo]`;
/// * `Text` for a direct textual value, like `[foo = bar]`;
/// * `Stream` for a braced evaluation span, like `[foo = { bar }]`.
///
/// The parser stores the two value-bearing forms unchanged; the engine
/// interprets them only where a command asks for them.
#[derive(Debug)]
pub enum ParamValue {
    Flag,
    Text(String),
    Stream(Vec<Element>),
}

/// One named parameter of a command, in source order.
#[derive(Debug)]
pub struct Param {
    pub name: String,
    pub value: ParamValue,
}

/// The name of a command: a local name and an optional namespace.
#[derive(Debug)]
pub struct CommandName {
    pub name: String,
    pub namespace: Option<String>,
}

/// A command invocation: its name, parameters, nested content, and whether
/// the block (`begin`/`end`) form was used.
#[derive(Debug)]
pub struct Command {
    pub name: String,
    pub namespace: Option<String>,
    pub params: Vec<Param>,
    pub content: Vec<Element>,
    pub block: bool,
}

/// Any recognized syntax element of a stream.
#[derive(Debug)]
pub enum Element {
    /// A command call.
    Command(Command),
    /// Raw, unprocessed text.
    Raw(String),
    /// A comment, ignored by the engine.
    Comment(String),
    /// A forced line break.
    LineBreak,
}

/// A stream is a list of elements of the same nesting level.
pub type Stream = Vec<Element>;

impl ParamValue {
    pub open spec fn model(self) -> ParamValueModel
        decreases self,
    {
        match self {
            ParamValue::Flag => ParamValueModel::Flag,
            ParamValue::Text(t) => ParamValueModel::Text(t@),
            ParamValue::Stream(s) => ParamValueModel::Stream(stream_model(s@)),
        }
    }
}

impl Param {
    pub open spec fn model(self) -> ParamModel
        decreases self,
    {
        ParamModel { name: self.name@, value: self.value.model() }
    }
}

impl CommandName {
    pub open spec fn model(self) -> CommandNameModel {
        CommandNameModel {
            name: self.name@,
            namespace: match self.namespace {
                Some(n) => Some(n@),
                None => None,
            },
        }
    }
}

impl Command {
    pub open spec fn model(self) -> CommandModel
        decreases self,
    {
        CommandModel {
            name: self.name@,
            namespace: match self.namespace {
                Some(n) => Some(n@),
                None => None,
            },
            params: params_model(self.params@),
            content: stream_model(self.content@),
            block: self.block,
        }
    }
}

impl Element {
    pub open spec fn model(self) -> ElementModel
        decreases self,
    {
        match self {
            Element::Command(c) => ElementModel::Command(c.model()),
            Element::Raw(t) => ElementModel::Raw(t@),
            Element::Comment(t) => ElementModel::Comment(t@),
            Element::LineBreak => ElementModel::LineBreak,
        }
    }
}

/// The model of a whole stream: the sequence of its elements' models.
pub open spec fn stream_model(s: Seq<Element>) -> Seq<ElementModel>
    decreases s,
{
    if s.len() == 0 {
        Seq::empty()
    } else {
        seq![s[0].model()] + stream_model(s.subrange(1, s.len() as int))
    }
}

/// The model of a parameter list.
pub open spec fn params_model(s: Seq<Param>) -> Seq<ParamModel>
    decreases s,
{
    if s.len() == 0 {
        Seq::empty()
    } else {
        seq![s[0].model()] + params_model(s.subrange(1, s.len() as int))
    }
}

/// `stream_model` is the element-wise model of the stream.
pub broadcast proof fn lemma_stream_model(s: Seq<Element>)
    ensures
        (#[trigger] stream_model(s)).len() == s.len(),
        forall|i: int| 0 <= i < s.len() ==> stream_model(s)[i] == s[i].model(),
    decreases s.len(),
{
    if s.len() > 0 {
        lemma_stream_model(s.subrange(1, s.len() as int));
    }
}

/// `params_model` is the element-wise model of the parameter list.
pub broadcast proof fn lemma_params_model(s: Seq<Param>)
    ensures
        (#[trigger] params_model(s)).len() == s.len(),
        forall|i: int| 0 <= i < s.len() ==> params_model(s)[i] == s[i].model(),
    decreases s.len(),
{
    if s.len() > 0 {
        lemma_params_model(s.subrange(1, s.len() as int));
    }
}

/// One parsed command header, before block pairing.
pub enum CmdStepModel {
    /// An escaped character, collapsing to a one-character raw element.
    Escape(char),
    /// An ordinary command, complete with parameters and content.
    Normal(CommandModel),
    /// A `\begin{name}` header carrying the parameters given to `begin`.
    Start(CommandNameModel, Seq<ParamModel>),
    /// An `\end{name}` header.
    End(CommandNameModel),
}

/// Clamps `p` into the range `lo ..= hi`.
///
/// The scanning functions always return in-range positions, but the
/// termination checker cannot use that fact while the grammar functions are
/// still being defined, so every position that feeds a recursive call is
/// clamped.  [`lemma_stream_spec_bounds`] and its companions show that the
/// clamps never change a position.
pub open spec fn clamp(lo: int, p: int, hi: int) -> int {
    if p < lo {
        lo
    } else if p > hi {
        hi
    } else {
        p
    }
}

/// A character that may follow the command sigil as an escape.
pub open spec fn escapable(c: char) -> bool {
    c == '{' || c == '}' || c == '%' || c == '\\' || c == '\n'
}

/// Parses a command name `ident (":" ident)?` starting at `pos`.
///
/// On the namespaced form the first identifier is the namespace and the
/// second the local name.  A `:` that is not followed by an identifier is
/// not consumed: the name is then the first identifier alone.
pub open spec fn command_name_spec(s: Seq<char>, pos: int) -> Result<(int, CommandNameModel), ParseError> {
    let e = ident_end(s, pos);
    if e == pos {
        Err(ParseError::MalformedCommand)
    } else if e < s.len() && s[e] == ':' && ident_end(s, e + 1) > e + 1 {
        let e2 = ident_end(s, e + 1);
        Ok(
            (
                e2,
                CommandNameModel {
                    name: s.subrange(e + 1, e2),
                    namespace: Some(s.subrange(pos, e)),
                },
            ),
        )
    } else {
        Ok((e, CommandNameModel { name: s.subrange(pos, e), namespace: None }))
    }
}

/// Parses the parameter list after `[`: a `]`-terminated, `,`-separated
/// sequence of `ident`, `ident = bareword` or `ident = { stream }`.
pub open spec fn params_spec(s: Seq<char>, pos: int) -> Result<(int, Seq<ParamModel>), ParseError>
    decreases s.len() - pos, 0int,
        when 0 <= pos <= s.len()
{
    let w = clamp(pos, ws_end(s, pos), s.len() as int);
    if w == s.len() {
        Err(ParseError::MalformedCommand)
    } else if s[w] == ']' {
        Ok((w + 1, Seq::empty()))
    } else {
        let e = clamp(w, ident_end(s, w), s.len() as int);
        if e == w {
            Err(ParseError::MalformedCommand)
        } else {
            let name = s.subrange(w, e);
            let w2 = clamp(e, ws_end(s, e), s.len() as int);
            if w2 < s.len() && s[w2] == '=' {
                let v = clamp(w2 + 1, ws_end(s, w2 + 1), s.len() as int);
                if v < s.len() && s[v] == '{' {
                    match stream_spec(s, v + 1, None) {
                        Err(err) => Err(err),
                        Ok((pe, inner)) => {
                            let pec = clamp(v + 1, pe, s.len() as int);
                            if pec < s.len() && s[pec] == '}' {
                                params_tail(
                                    s,
                                    ParamModel { name, value: ParamValueModel::Stream(inner) },
                                    pec + 1,
                                )
                            } else {
                                Err(ParseError::UnclosedBlock)
                            }
                        },
                    }
                } else {
                    let be = clamp(v, bareword_end(s, v), s.len() as int);
                    if be == v {
                        Err(ParseError::MalformedCommand)
                    } else {
                        params_tail(
                            s,
                            ParamModel {
                                name,
                                value: ParamValueModel::Text(s.subrange(v, be)),
                            },
                            be,
                        )
                    }
                }
            } else {
                params_tail(s, ParamModel { name, value: ParamValueModel::Flag }, w2)
            }
        }
    }
}

/// After one parameter: skips whitespace and an optional `,`, then parses
/// the remaining parameters and puts `param` in front of them.
pub open spec fn params_tail(s: Seq<char>, param: ParamModel, pos: int) -> Result<(int, Seq<ParamModel>), ParseError>
    decreases s.len() - pos, 1int,
        when 0 <= pos <= s.len()
{
    let w = clamp(pos, ws_end(s, pos), s.len() as int);
    let after = if w < s.len() && s[w] == ',' {
        w + 1
    } else {
        w
    };
    match params_spec(s, after) {
        Err(err) => Err(err),
        Ok((end, rest)) => Ok((end, seq![param] + rest)),
    }
}

/// Parses one command after the `\` sigil at `pos - 1`.
pub open spec fn command_spec(s: Seq<char>, pos: int) -> Result<(int, CmdStepModel), ParseError>
    decreases s.len() - pos, 0int,
        when 0 <= pos <= s.len()
{
    if pos == s.len() {
        Err(ParseError::MalformedCommand)
    } else if escapable(s[pos]) {
        Ok((pos + 1, CmdStepModel::Escape(s[pos])))
    } else {
        match command_name_spec(s, pos) {
            Err(err) => Err(err),
            Ok((p1, name)) => {
                let p1c = clamp(pos, p1, s.len() as int);
                let params_res = if p1c < s.len() && s[p1c] == '[' {
                    params_spec(s, p1c + 1)
                } else {
                    Ok((p1c, Seq::empty()))
                };
                match params_res {
                    Err(err) => Err(err),
                    Ok((p2, params)) => {
                        let p2c = clamp(p1c, p2, s.len() as int);
                        if name.namespace is None && (name.name == "begin"@ || name.name
                            == "end"@) {
                            if p2c < s.len() && s[p2c] == '{' {
                                match command_name_spec(s, p2c + 1) {
                                    Err(err) => Err(err),
                                    Ok((p3, real_name)) => {
                                        let p3c = clamp(p2c + 1, p3, s.len() as int);
                                        if p3c < s.len() && s[p3c] == '}' {
                                            if name.name == "begin"@ {
                                                Ok((p3c + 1, CmdStepModel::Start(real_name, params)))
                                            } else {
                                                Ok((p3c + 1, CmdStepModel::End(real_name)))
                                            }
                                        } else {
                                            Err(ParseError::MalformedCommand)
                                        }
                                    },
                                }
                            } else {
                                Err(ParseError::MalformedCommand)
                            }
                        } else if p2c < s.len() && s[p2c] == '{' {
                            match stream_spec(s, p2c + 1, None) {
                                Err(err) => Err(err),
                                Ok((p3, content)) => {
                                    let p3c = clamp(p2c + 1, p3, s.len() as int);
                                    if p3c < s.len() && s[p3c] == '}' {
                                        Ok(
                                            (
                                                p3c + 1,
                                                CmdStepModel::Normal(
                                                    CommandModel {
                                                        name: name.name,
                                                        namespace: name.namespace,
                                                        params,
                                                        content,
                                                        block: false,
                                                    },
                                                ),
                                            ),
                                        )
                                    } else {
                                        Err(ParseError::UnclosedBlock)
                                    }
                                },
                            }
                        } else {
                            Ok(
                                (
                                    p2c,
                                    CmdStepModel::Normal(
                                        CommandModel {
                                            name: name.name,
                                            namespace: name.namespace,
                                            params,
                                            content: Seq::empty(),
                                            block: false,
                                        },
                                    ),
                                ),
                            )
                        }
                    },
                }
            },
        }
    }
}

/// Parses a stream of elements starting at `pos`.
///
/// The stream stops at the end of the input or, outside any block, at a
/// closing brace, which is left unconsumed for the caller.  `ctx` is the
/// name of the innermost open `begin` block: inside one, a bare closing
/// brace is ordinary text, a matching `\end` consumes itself and ends the
/// stream, and a non-matching one, or an `\end` with no open block, is
/// fatal, as is the end of the input while a block is open.
pub open spec fn stream_spec(s: Seq<char>, pos: int, ctx: Option<CommandNameModel>) -> Result<
    (int, Seq<ElementModel>),
    ParseError,
>
    decreases s.len() - pos, 2int,
        when 0 <= pos <= s.len()
{
    if pos == s.len() {
        if ctx is Some {
            Err(ParseError::UnclosedBlock)
        } else {
            Ok((pos, Seq::empty()))
        }
    } else if s[pos] == '}' && ctx is None {
        Ok((pos, Seq::empty()))
    } else if s[pos] == '}' {
        match stream_spec(s, pos + 1, ctx) {
            Err(err) => Err(err),
            Ok((end, rest)) => Ok((end, seq![ElementModel::Raw(seq!['}'])] + rest)),
        }
    } else if s[pos] == '%' {
        let ce = clamp(pos + 1, comment_end(s, pos + 1), s.len() as int);
        match stream_spec(s, ce, ctx) {
            Err(err) => Err(err),
            Ok((end, rest)) => Ok((end, seq![ElementModel::Comment(s.subrange(pos + 1, ce))] + rest)),
        }
    } else if s[pos] == '\\' {
        match command_spec(s, pos + 1) {
            Err(err) => Err(err),
            Ok((p1, step)) => {
                let p1c = clamp(pos + 1, p1, s.len() as int);
                match step {
                    CmdStepModel::Escape(c) => match stream_spec(s, p1c, ctx) {
                        Err(err) => Err(err),
                        Ok((end, rest)) => Ok((end, seq![ElementModel::Raw(seq![c])] + rest)),
                    },
                    CmdStepModel::Normal(cmd) => match stream_spec(s, p1c, ctx) {
                        Err(err) => Err(err),
                        Ok((end, rest)) => Ok((end, seq![ElementModel::Command(cmd)] + rest)),
                    },
                    CmdStepModel::Start(nm, params) => match stream_spec(s, p1c, Some(nm)) {
                        Err(err) => Err(err),
                        Ok((p2, content)) => {
                            let p2c = clamp(p1c, p2, s.len() as int);
                            let cmd = CommandModel {
                                name: nm.name,
                                namespace: nm.namespace,
                                params,
                                content,
                                block: true,
                            };
                            match stream_spec(s, p2c, ctx) {
                                Err(err) => Err(err),
                                Ok((end, rest)) => Ok(
                                    (end, seq![ElementModel::Command(cmd)] + rest),
                                ),
                            }
                        },
                    },
                    CmdStepModel::End(nm) => match ctx {
                        Some(start) => if start == nm {
                            Ok((p1c, Seq::empty()))
                        } else {
                            Err(ParseError::MismatchedBlock)
                        },
                        None => Err(ParseError::MismatchedBlock),
                    },
                }
            },
        }
    } else {
        let re = clamp(pos + 1, raw_end(s, pos), s.len() as int);
        match stream_spec(s, re, ctx) {
            Err(err) => Err(err),
            Ok((end, rest)) => Ok((end, seq![ElementModel::Raw(s.subrange(pos, re))] + rest)),
        }
    }
}

/// Parses a whole document: the top-level stream must consume the entire
/// input; a stray `}` leaves input behind, which is fatal.
pub open spec fn document_spec(s: Seq<char>) -> Result<Seq<ElementModel>, ParseError> {
    match stream_spec(s, 0, None) {
        Err(err) => Err(err),
        Ok((end, stream)) => if end == s.len() {
            Ok(stream)
        } else {
            Err(ParseError::ExtraTrailing)
        },
    }
}

impl View for ParamValue {
    type V = ParamValueModel;

    open spec fn view(&self) -> ParamValueModel {
        self.model()
    }
}

/// Appending one element on the right extends the stream model.
pub proof fn lemma_stream_model_push(v: Seq<Element>, e: Element)
    ensures
        stream_model(v.push(e)) == stream_model(v) + seq![e.model()],
{
    broadcast use lemma_stream_model;

    assert(stream_model(v.push(e)) =~= stream_model(v) + seq![e.model()]);
}

/// Appending one parameter on the right extends the parameter-list model.
pub proof fn lemma_params_model_push(v: Seq<Param>, p: Param)
    ensures
        params_model(v.push(p)) == params_model(v) + seq![p.model()],
{
    broadcast use lemma_params_model;

    assert(params_model(v.push(p)) =~= params_model(v) + seq![p.model()]);
}

impl View for Param {
    type V = ParamModel;

    open spec fn view(&self) -> ParamModel {
        self.model()
    }
}

impl View for CommandName {
    type V = CommandNameModel;

    open spec fn view(&self) -> CommandNameModel {
        self.model()
    }
}

impl View for Command {
    type V = CommandModel;

    open spec fn view(&self) -> CommandModel {
        self.model()
    }
}

impl View for Element {
    type V = ElementModel;

    open spec fn view(&self) -> ElementModel {
        self.model()
    }
}

impl Command {
    /// The name of this command, as its own value.
    pub fn command_name(&self) -> (r: CommandName)
        ensures
            r@ == (CommandNameModel {
                name: self.name@,
                namespace: match self.namespace {
                    Some(n) => Some(n@),
                    None => None,
                },
            }),
    {
        CommandName {
            name: self.name.clone(),
            namespace: match &self.namespace {
                Some(n) => Some(n.clone()),
                None => None,
            },
        }
    }
}

impl CommandName {
    /// Whether two command names denote the same function.
    pub fn same(&self, other: &CommandName) -> (r: bool)
        ensures
            r == (self@ == other@),
    {
        if !str_eq(self.name.as_str(), other.name.as_str()) {
            return false;
        }
        match (&self.namespace, &other.namespace) {
            (Some(a), Some(b)) => str_eq(a.as_str(), b.as_str()),
            (None, None) => true,
            _ => false,
        }
    }
}

/// One parsed command header, before block pairing.
enum CmdStep {
    Escape(char),
    Normal(Command),
    Start(CommandName, Vec<Param>),
    End(CommandName),
}

impl CmdStep {
    spec fn model(self) -> CmdStepModel {
        match self {
            CmdStep::Escape(c) => CmdStepModel::Escape(c),
            CmdStep::Normal(c) => CmdStepModel::Normal(c.model()),
            CmdStep::Start(n, p) => CmdStepModel::Start(n.model(), params_model(p@)),
            CmdStep::End(n) => CmdStepModel::End(n.model()),
        }
    }
}

/// The model of the innermost open block's name, if any.
pub open spec fn ctx_model(ctx: Option<&CommandName>) -> Option<CommandNameModel> {
    match ctx {
        Some(c) => Some(c@),
        None => None,
    }
}

/// Parses a command name starting at `pos`.
fn parse_command_name(s: &str, n: usize, pos: usize) -> (r: Result<(usize, CommandName), ParseError>)
    requires
        pos <= n,
        n == s@.len(),
    ensures
        match r {
            Ok((end, nm)) => command_name_spec(s@, pos as int) == Ok::<_, ParseError>(
                (end as int, nm@),
            ) && pos <= end <= n,
            Err(e) => command_name_spec(s@, pos as int) == Err::<(int, CommandNameModel), _>(e),
        },
{
    let e = scan_ident_end(s, n, pos);
    if e == pos {
        return Err(ParseError::MalformedCommand);
    }
    if e < n && s.get_char(e) == ':' {
        let e2 = scan_ident_end(s, n, e + 1);
        if e2 > e + 1 {
            let ns = s.substring_char(pos, e).to_owned();
            let nm = s.substring_char(e + 1, e2).to_owned();
            return Ok((e2, CommandName { name: nm, namespace: Some(ns) }));
        }
    }
    let nm = s.substring_char(pos, e).to_owned();
    Ok((e, CommandName { name: nm, namespace: None }))
}

/// Parses the parameter list after `[`.
#[verifier::rlimit(60)]
fn parse_params(s: &str, n: usize, pos: usize) -> (r: Result<(usize, Vec<Param>), ParseError>)
    requires
        pos <= n,
        n == s@.len(),
    ensures
        match r {
            Ok((end, v)) => params_spec(s@, pos as int) == Ok::<_, ParseError>(
                (end as int, params_model(v@)),
            ) && pos <= end <= n,
            Err(e) => params_spec(s@, pos as int) == Err::<(int, Seq<ParamModel>), _>(e),
        },
    decreases n - pos,
{
    let mut acc: Vec<Param> = Vec::new();
    let mut cur = pos;
    proof {
        assert(params_model(acc@) =~= Seq::<ParamModel>::empty());
    }
    loop
        invariant
            pos <= cur <= n,
            n == s@.len(),
            match params_spec(s@, cur as int) {
                Ok((end, rest)) => params_spec(s@, pos as int) == Ok::<_, ParseError>(
                    (end, params_model(acc@) + rest),
                ),
                Err(e) => params_spec(s@, pos as int) == Err::<(int, Seq<ParamModel>), _>(e),
            },
        decreases n - cur,
    {
        let w = scan_ws_end(s, n, cur);
        proof {
            assert(clamp(cur as int, ws_end(s@, cur as int), s@.len() as int) == w as int);
        }
        if w == n {
            return Err(ParseError::MalformedCommand);
        }
        if s.get_char(w) == ']' {
            proof {
                assert(params_model(acc@) + Seq::<ParamModel>::empty() =~= params_model(acc@));
            }
            return Ok((w + 1, acc));
        }
        let e = scan_ident_end(s, n, w);
        proof {
            assert(clamp(w as int, ident_end(s@, w as int), s@.len() as int) == e as int);
        }
        if e == w {
            return Err(ParseError::MalformedCommand);
        }
        let name = s.substring_char(w, e).to_owned();
        let w2 = scan_ws_end(s, n, e);
        proof {
            assert(clamp(e as int, ws_end(s@, e as int), s@.len() as int) == w2 as int);
        }
        let value: ParamValue;
        let q: usize;
        if w2 < n && s.get_char(w2) == '=' {
            let v = scan_ws_end(s, n, w2 + 1);
            proof {
                assert(clamp(w2 as int + 1, ws_end(s@, w2 as int + 1), s@.len() as int)
                    == v as int);
            }
            if v < n && s.get_char(v) == '{' {
                match parse_stream(s, n, v + 1, None) {
                    Err(err) => {
                        return Err(err);
                    },
                    Ok((pe, inner)) => {
                        proof {
                            assert(clamp(v as int + 1, pe as int, s@.len() as int) == pe as int);
                        }
                        if pe < n && s.get_char(pe) == '}' {
                            value = ParamValue::Stream(inner);
                            q = pe + 1;
                        } else {
                            return Err(ParseError::UnclosedBlock);
                        }
                    },
                }
            } else {
                let be = scan_bareword_end(s, n, v);
                proof {
                    assert(clamp(v as int, bareword_end(s@, v as int), s@.len() as int)
                        == be as int);
                }
                if be == v {
                    return Err(ParseError::MalformedCommand);
                }
                value = ParamValue::Text(s.substring_char(v, be).to_owned());
                q = be;
            }
        } else {
            value = ParamValue::Flag;
            q = w2;
        }
        let param = Param { name, value };
        let ghost pm = param.model();
        proof {
            assert(params_spec(s@, cur as int) == params_tail(s@, pm, q as int));
        }
        let w3 = scan_ws_end(s, n, q);
        proof {
            assert(clamp(q as int, ws_end(s@, q as int), s@.len() as int) == w3 as int);
        }
        let w4: usize = if w3 < n && s.get_char(w3) == ',' {
            w3 + 1
        } else {
            w3
        };
        let ghost old_acc = acc@;
        acc.push(param);
        proof {
            lemma_params_model_push(old_acc, param);
            match params_spec(s@, w4 as int) {
                Ok((end2, rest2)) => {
                    assert(params_model(old_acc) + (seq![pm] + rest2) =~= params_model(acc@)
                        + rest2);
                },
                Err(_) => {},
            }
        }
        cur = w4;
    }
}

/// Parses one command after the `\` sigil at `pos - 1`.
fn parse_command(s: &str, n: usize, pos: usize) -> (r: Result<(usize, CmdStep), ParseError>)
    requires
        pos <= n,
        n == s@.len(),
    ensures
        match r {
            Ok((end, st)) => command_spec(s@, pos as int) == Ok::<_, ParseError>(
                (end as int, st.model()),
            ) && pos <= end <= n,
            Err(e) => command_spec(s@, pos as int) == Err::<(int, CmdStepModel), _>(e),
        },
    decreases n - pos,
{
    if pos == n {
        return Err(ParseError::MalformedCommand);
    }
    let c0 = s.get_char(pos);
    if c0 == '{' || c0 == '}' || c0 == '%' || c0 == '\\' || c0 == '\n' {
        return Ok((pos + 1, CmdStep::Escape(c0)));
    }
    let (p1, name) = match parse_command_name(s, n, pos) {
        Ok(x) => x,
        Err(e) => {
            return Err(e);
        },
    };
    proof {
        assert(clamp(pos as int, p1 as int, s@.len() as int) == p1 as int);
    }
    let (p2, params) = if p1 < n && s.get_char(p1) == '[' {
        match parse_params(s, n, p1 + 1) {
            Ok(x) => x,
            Err(e) => {
                return Err(e);
            },
        }
    } else {
        (p1, Vec::new())
    };
    proof {
        assert(clamp(p1 as int, p2 as int, s@.len() as int) == p2 as int);
        if !(p1 < n && s@[p1 as int] == '[') {
            assert(params_model(params@) =~= Seq::<ParamModel>::empty());
        }
    }
    let is_begin = name.namespace.is_none() && str_eq(name.name.as_str(), "begin");
    let is_end = name.namespace.is_none() && str_eq(name.name.as_str(), "end");
    if is_begin || is_end {
        if p2 < n && s.get_char(p2) == '{' {
            let (p3, real_name) = match parse_command_name(s, n, p2 + 1) {
                Ok(x) => x,
                Err(e) => {
                    return Err(e);
                },
            };
            proof {
                assert(clamp(p2 as int + 1, p3 as int, s@.len() as int) == p3 as int);
            }
            if p3 < n && s.get_char(p3) == '}' {
                if is_begin {
                    Ok((p3 + 1, CmdStep::Start(real_name, params)))
                } else {
                    Ok((p3 + 1, CmdStep::End(real_name)))
                }
            } else {
                Err(ParseError::MalformedCommand)
            }
        } else {
            Err(ParseError::MalformedCommand)
        }
    } else if p2 < n && s.get_char(p2) == '{' {
        match parse_stream(s, n, p2 + 1, None) {
            Err(e) => Err(e),
            Ok((p3, content)) => {
                proof {
                    assert(clamp(p2 as int + 1, p3 as int, s@.len() as int) == p3 as int);
                }
                if p3 < n && s.get_char(p3) == '}' {
                    Ok(
                        (
                            p3 + 1,
                            CmdStep::Normal(
                                Command {
                                    name: name.name,
                                    namespace: name.namespace,
                                    params,
                                    content,
                                    block: false,
                                },
                            ),
                        ),
                    )
                } else {
                    Err(ParseError::UnclosedBlock)
                }
            },
        }
    } else {
        proof {
            assert(stream_model(Seq::<Element>::empty()) =~= Seq::<ElementModel>::empty());
        }
        Ok(
            (
                p2,
                CmdStep::Normal(
                    Command {
                        name: name.name,
                        namespace: name.namespace,
                        params,
                        content: Vec::new(),
                        block: false,
                    },
                ),
            ),
        )
    }
}

/// Parses a stream of elements starting at `pos`; see [`stream_spec`].
#[verifier::rlimit(60)]
fn parse_stream(s: &str, n: usize, pos: usize, ctx: Option<&CommandName>) -> (r: Result<
    (usize, Vec<Element>),
    ParseError,
>)
    requires
        pos <= n,
        n == s@.len(),
    ensures
        match r {
            Ok((end, v)) => stream_spec(s@, pos as int, ctx_model(ctx)) == Ok::<_, ParseError>(
                (end as int, stream_model(v@)),
            ) && pos <= end <= n,
            Err(e) => stream_spec(s@, pos as int, ctx_model(ctx)) == Err::<
                (int, Seq<ElementModel>),
                _,
            >(e),
        },
    decreases n - pos,
{
    let mut acc: Vec<Element> = Vec::new();
    let mut cur = pos;
    proof {
        assert(stream_model(acc@) =~= Seq::<ElementModel>::empty());
    }
    loop
        invariant
            pos <= cur <= n,
            n == s@.len(),
            match stream_spec(s@, cur as int, ctx_model(ctx)) {
                Ok((end, rest)) => stream_spec(s@, pos as int, ctx_model(ctx)) == Ok::<
                    _,
                    ParseError,
                >((end, stream_model(acc@) + rest)),
                Err(e) => stream_spec(s@, pos as int, ctx_model(ctx)) == Err::<
                    (int, Seq<ElementModel>),
                    _,
                >(e),
            },
        decreases n - cur,
    {
        if cur == n {
            if ctx.is_some() {
                return Err(ParseError::UnclosedBlock);
            }
            proof {
                assert(stream_model(acc@) + Seq::<ElementModel>::empty() =~= stream_model(acc@));
            }
            return Ok((cur, acc));
        }
        let c = s.get_char(cur);
        if c == '}' && ctx.is_none() {
            proof {
                assert(stream_model(acc@) + Seq::<ElementModel>::empty() =~= stream_model(acc@));
            }
            return Ok((cur, acc));
        }
        if c == '}' {
            let el = Element::Raw(s.substring_char(cur, cur + 1).to_owned());
            proof {
                assert(s@.subrange(cur as int, cur as int + 1) =~= seq!['}']);
            }
            let ghost old_acc = acc@;
            acc.push(el);
            proof {
                lemma_stream_model_push(old_acc, el);
                match stream_spec(s@, cur as int + 1, ctx_model(ctx)) {
                    Ok((end2, rest2)) => {
                        assert(stream_model(old_acc) + (seq![el.model()] + rest2) =~= stream_model(
                            acc@,
                        ) + rest2);
                    },
                    Err(_) => {},
                }
            }
            cur = cur + 1;
        } else if c == '%' {
            let ce = scan_comment_end(s, n, cur + 1);
            proof {
                assert(clamp(cur as int + 1, comment_end(s@, cur as int + 1), s@.len() as int)
                    == ce as int);
            }
            let el = Element::Comment(s.substring_char(cur + 1, ce).to_owned());
            let ghost old_acc = acc@;
            acc.push(el);
            proof {
                lemma_stream_model_push(old_acc, el);
                match stream_spec(s@, ce as int, ctx_model(ctx)) {
                    Ok((end2, rest2)) => {
                        assert(stream_model(old_acc) + (seq![el.model()] + rest2) =~= stream_model(
                            acc@,
                        ) + rest2);
                    },
                    Err(_) => {},
                }
            }
            cur = ce;
        } else if c == '\\' {
            let (p1, step) = match parse_command(s, n, cur + 1) {
                Ok(x) => x,
                Err(e) => {
                    return Err(e);
                },
            };
            proof {
                assert(clamp(cur as int + 1, p1 as int, s@.len() as int) == p1 as int);
            }
            match step {
                CmdStep::Escape(_c) => {
                    let el = Element::Raw(s.substring_char(cur + 1, cur + 2).to_owned());
                    proof {
                        assert(s@.subrange(cur as int + 1, cur as int + 2) =~= seq![
                            s@[cur as int + 1],
                        ]);
                    }
                    let ghost old_acc = acc@;
                    acc.push(el);
                    proof {
                        lemma_stream_model_push(old_acc, el);
                        match stream_spec(s@, p1 as int, ctx_model(ctx)) {
                            Ok((end2, rest2)) => {
                                assert(stream_model(old_acc) + (seq![el.model()] + rest2)
                                    =~= stream_model(acc@) + rest2);
                            },
                            Err(_) => {},
                        }
                    }
                    cur = p1;
                },
                CmdStep::Normal(cmd) => {
                    let el = Element::Command(cmd);
                    let ghost old_acc = acc@;
                    acc.push(el);
                    proof {
                        lemma_stream_model_push(old_acc, el);
                        match stream_spec(s@, p1 as int, ctx_model(ctx)) {
                            Ok((end2, rest2)) => {
                                assert(stream_model(old_acc) + (seq![el.model()] + rest2)
                                    =~= stream_model(acc@) + rest2);
                            },
                            Err(_) => {},
                        }
                    }
                    cur = p1;
                },
                CmdStep::Start(nm, params) => {
                    let (p2, content) = match parse_stream(s, n, p1, Some(&nm)) {
                        Ok(x) => x,
                        Err(e) => {
                            return Err(e);
                        },
                    };
                    proof {
                        assert(clamp(p1 as int, p2 as int, s@.len() as int) == p2 as int);
                    }
                    let el = Element::Command(
                        Command {
                            name: nm.name,
                            namespace: nm.namespace,
                            params,
                            content,
                            block: true,
                        },
                    );
                    let ghost old_acc = acc@;
                    acc.push(el);
                    proof {
                        lemma_stream_model_push(old_acc, el);
                        match stream_spec(s@, p2 as int, ctx_model(ctx)) {
                            Ok((end2, rest2)) => {
                                assert(stream_model(old_acc) + (seq![el.model()] + rest2)
                                    =~= stream_model(acc@) + rest2);
                            },
                            Err(_) => {},
                        }
                    }
                    cur = p2;
                },
                CmdStep::End(nm) => {
                    match ctx {
                        Some(start) => {
                            if start.same(&nm) {
                                proof {
                                    assert(stream_model(acc@) + Seq::<ElementModel>::empty()
                                        =~= stream_model(acc@));
                                }
                                return Ok((p1, acc));
                            } else {
                                return Err(ParseError::MismatchedBlock);
                            }
                        },
                        None => {
                            return Err(ParseError::MismatchedBlock);
                        },
                    }
                },
            }
        } else {
            let re = scan_raw_end(s, n, cur);
            proof {
                assert(raw_end(s@, cur as int) == raw_end(s@, cur as int + 1));
                lemma_raw_end(s@, cur as int + 1);
                assert(clamp(cur as int + 1, raw_end(s@, cur as int), s@.len() as int)
                    == re as int);
            }
            let el = Element::Raw(s.substring_char(cur, re).to_owned());
            let ghost old_acc = acc@;
            acc.push(el);
            proof {
                lemma_stream_model_push(old_acc, el);
                match stream_spec(s@, re as int, ctx_model(ctx)) {
                    Ok((end2, rest2)) => {
                        assert(stream_model(old_acc) + (seq![el.model()] + rest2) =~= stream_model(
                            acc@,
                        ) + rest2);
                    },
                    Err(_) => {},
                }
            }
            cur = re;
        }
    }
}

/// Whether any command in the stream, at any depth, used the block form.
pub open spec fn has_block_stream(t: Seq<ElementModel>) -> bool
    decreases t, 0int,
{
    if t.len() == 0 {
        false
    } else {
        has_block_elem(t[0]) || has_block_stream(t.subrange(1, t.len() as int))
    }
}

/// Whether the element holds a block-form command at any depth.
pub open spec fn has_block_elem(e: ElementModel) -> bool
    decreases e, 1int,
{
    match e {
        ElementModel::Command(c) => has_block_cmd(c),
        _ => false,
    }
}

/// Whether the command is in block form, or holds one at any depth.
pub open spec fn has_block_cmd(c: CommandModel) -> bool
    decreases c, 2int,
{
    c.block || has_block_stream(c.content) || has_block_params(c.params)
}

/// Whether any parameter value holds a block-form command.
pub open spec fn has_block_params(p: Seq<ParamModel>) -> bool
    decreases p, 0int,
{
    if p.len() == 0 {
        false
    } else {
        has_block_value(p[0].value) || has_block_params(p.subrange(1, p.len() as int))
    }
}

/// Whether the parameter value holds a block-form command.
pub open spec fn has_block_value(v: ParamValueModel) -> bool
    decreases v, 1int,
{
    match v {
        ParamValueModel::Stream(t) => has_block_stream(t),
        _ => false,
    }
}

/// A `\begin` marker stands at position `i` of the source.
pub open spec fn begin_marker_at(s: Seq<char>, i: int) -> bool {
    &&& 0 <= i
    &&& i + 6 <= s.len()
    &&& s[i] == '\\'
    &&& s.subrange(i + 1, i + 6) == "begin"@
}

/// The source contains a `\begin` marker somewhere.
pub open spec fn begin_occurs(s: Seq<char>) -> bool {
    exists|i: int| begin_marker_at(s, i)
}

/// Consing one element onto a stream: the whole has a block command
/// exactly when the head or the tail has one.
proof fn lemma_has_block_cons(x: ElementModel, rest: Seq<ElementModel>)
    ensures
        has_block_stream(seq![x] + rest) == (has_block_elem(x) || has_block_stream(rest)),
{
    let t = seq![x] + rest;
    assert(t[0] == x);
    assert(t.subrange(1, t.len() as int) =~= rest);
}

/// A parsed command header can only mention the block form where the
/// source spells `begin` right after the sigil, and never hides one in an
/// ordinary command's content or parameters without a `\begin` marker.
proof fn lemma_command_spec_begin(s: Seq<char>, pos: int)
    requires
        0 <= pos <= s.len(),
    ensures
        command_spec(s, pos) matches Ok((end, step)) ==> match step {
            CmdStepModel::Normal(cmd) => has_block_cmd(cmd) ==> begin_occurs(s),
            CmdStepModel::Start(_, _) => pos + 5 <= s.len() && s.subrange(pos, pos + 5)
                == "begin"@,
            _ => true,
        },
    decreases s.len() - pos, 0int,
{
    reveal_strlit("begin");
    if pos == s.len() || escapable(s[pos]) {
    } else {
        match command_name_spec(s, pos) {
            Err(_) => {},
            Ok((p1, name)) => {
                let p1c = clamp(pos, p1, s.len() as int);
                let params_res = if p1c < s.len() && s[p1c] == '[' {
                    lemma_params_spec_begin(s, p1c + 1);
                    params_spec(s, p1c + 1)
                } else {
                    Ok::<_, ParseError>((p1c, Seq::<ParamModel>::empty()))
                };
                match params_res {
                    Err(_) => {},
                    Ok((p2, params)) => {
                        let p2c = clamp(p1c, p2, s.len() as int);
                        if name.namespace is None && (name.name == "begin"@ || name.name
                            == "end"@) {
                            if name.name == "begin"@ {
                                let e = ident_end(s, pos);
                                lemma_ident_end(s, pos);
                                assert(name.name == s.subrange(pos, e));
                                assert(s.subrange(pos, e).len() == 5);
                                assert(s.subrange(pos, pos + 5) =~= s.subrange(pos, e));
                            }
                        } else if p2c < s.len() && s[p2c] == '{' {
                            lemma_stream_spec_begin(s, p2c + 1, None);
                            match stream_spec(s, p2c + 1, None) {
                                Err(_) => {},
                                Ok((p3, content)) => {
                                    assert(has_block_params(Seq::<ParamModel>::empty()) == false);
                                },
                            }
                        } else {
                            assert(has_block_stream(Seq::<ElementModel>::empty()) == false);
                            assert(has_block_params(Seq::<ParamModel>::empty()) == false);
                        }
                    },
                }
            },
        }
    }
}

/// Parameters can only hold a block-form command where the source holds a
/// `\begin` marker.
proof fn lemma_params_spec_begin(s: Seq<char>, pos: int)
    requires
        0 <= pos <= s.len(),
    ensures
        params_spec(s, pos) matches Ok((end, params)) && has_block_params(params) ==> begin_occurs(
            s,
        ),
    decreases s.len() - pos, 0int,
{
    let w = clamp(pos, ws_end(s, pos), s.len() as int);
    if w == s.len() {
    } else if s[w] == ']' {
    } else {
        let e = clamp(w, ident_end(s, w), s.len() as int);
        if e == w {
        } else {
            let name = s.subrange(w, e);
            let w2 = clamp(e, ws_end(s, e), s.len() as int);
            if w2 < s.len() && s[w2] == '=' {
                let v = clamp(w2 + 1, ws_end(s, w2 + 1), s.len() as int);
                if v < s.len() && s[v] == '{' {
                    lemma_stream_spec_begin(s, v + 1, None);
                    match stream_spec(s, v + 1, None) {
                        Err(_) => {},
                        Ok((pe, inner)) => {
                            let pec = clamp(v + 1, pe, s.len() as int);
                            if pec < s.len() && s[pec] == '}' {
                                lemma_params_tail_begin(
                                    s,
                                    ParamModel { name, value: ParamValueModel::Stream(inner) },
                                    pec + 1,
                                );
                            }
                        },
                    }
                } else {
                    let be = clamp(v, bareword_end(s, v), s.len() as int);
                    if be == v {
                    } else {
                        lemma_params_tail_begin(
                            s,
                            ParamModel { name, value: ParamValueModel::Text(s.subrange(v, be)) },
                            be,
                        );
                    }
                }
            } else {
                lemma_params_tail_begin(s, ParamModel { name, value: ParamValueModel::Flag }, w2);
            }
        }
    }
}

/// The rest of a parameter list can only hold a block-form command where
/// the source holds a `\begin` marker, given the same of the parameter in
/// front.
proof fn lemma_params_tail_begin(s: Seq<char>, param: ParamModel, pos: int)
    requires
        0 <= pos <= s.len(),
        has_block_value(param.value) ==> begin_occurs(s),
    ensures
        params_tail(s, param, pos) matches Ok((end, params)) && has_block_params(params)
            ==> begin_occurs(s),
    decreases s.len() - pos, 1int,
{
    let w = clamp(pos, ws_end(s, pos), s.len() as int);
    let after = if w < s.len() && s[w] == ',' {
        w + 1
    } else {
        w
    };
    lemma_params_spec_begin(s, after);
    match params_spec(s, after) {
        Err(_) => {},
        Ok((end, rest)) => {
            let ps = seq![param] + rest;
            assert(ps[0] == param);
            assert(ps.subrange(1, ps.len() as int) =~= rest);
        },
    }
}

/// A parsed stream can only hold a block-form command, at any depth, where
/// the source holds a `\begin` marker.
proof fn lemma_stream_spec_begin(s: Seq<char>, pos: int, ctx: Option<CommandNameModel>)
    requires
        0 <= pos <= s.len(),
    ensures
        stream_spec(s, pos, ctx) matches Ok((end, t)) && has_block_stream(t) ==> begin_occurs(s),
    decreases s.len() - pos, 2int,
{
    if pos == s.len() {
    } else if s[pos] == '}' && ctx is None {
    } else if s[pos] == '}' {
        lemma_stream_spec_begin(s, pos + 1, ctx);
        match stream_spec(s, pos + 1, ctx) {
            Err(_) => {},
            Ok((end, rest)) => {
                lemma_has_block_cons(ElementModel::Raw(seq!['}']), rest);
            },
        }
    } else if s[pos] == '%' {
        let ce = clamp(pos + 1, comment_end(s, pos + 1), s.len() as int);
        lemma_stream_spec_begin(s, ce, ctx);
        match stream_spec(s, ce, ctx) {
            Err(_) => {},
            Ok((end, rest)) => {
                lemma_has_block_cons(ElementModel::Comment(s.subrange(pos + 1, ce)), rest);
            },
        }
    } else if s[pos] == '\\' {
        lemma_command_spec_begin(s, pos + 1);
        match command_spec(s, pos + 1) {
            Err(_) => {},
            Ok((p1, step)) => {
                let p1c = clamp(pos + 1, p1, s.len() as int);
                match step {
                    CmdStepModel::Escape(c) => {
                        lemma_stream_spec_begin(s, p1c, ctx);
                        match stream_spec(s, p1c, ctx) {
                            Err(_) => {},
                            Ok((end, rest)) => {
                                lemma_has_block_cons(ElementModel::Raw(seq![c]), rest);
                            },
                        }
                    },
                    CmdStepModel::Normal(cmd) => {
                        lemma_stream_spec_begin(s, p1c, ctx);
                        match stream_spec(s, p1c, ctx) {
                            Err(_) => {},
                            Ok((end, rest)) => {
                                lemma_has_block_cons(ElementModel::Command(cmd), rest);
                            },
                        }
                    },
                    CmdStepModel::Start(nm, params) => {
                        assert(begin_marker_at(s, pos)) by {
                            assert(s.subrange(pos + 1, pos + 6) == "begin"@);
                        }
                        assert(begin_occurs(s));
                    },
                    CmdStepModel::End(nm) => {},
                }
            },
        }
    } else {
        let re = clamp(pos + 1, raw_end(s, pos), s.len() as int);
        lemma_stream_spec_begin(s, re, ctx);
        match stream_spec(s, re, ctx) {
            Err(_) => {},
            Ok((end, rest)) => {
                lemma_has_block_cons(ElementModel::Raw(s.subrange(pos, re)), rest);
            },
        }
    }
}

/// The block form leaves a trace: whenever a parsed document holds a
/// block-form command anywhere, the source contained a `\begin` marker.
///
/// The converse direction cannot be stated without source positions: a
/// document may hold both block and ordinary commands, so the absence of
/// the flag on one command says nothing about the whole source.
pub proof fn lemma_block_form_needs_begin(s: Seq<char>)
    ensures
        document_spec(s) matches Ok(t) && has_block_stream(t) ==> begin_occurs(s),
{
    lemma_stream_spec_begin(s, 0, None);
}

/// A run of characters free of stop characters scans to the end.
proof fn lemma_raw_end_all(s: Seq<char>, pos: int)
    requires
        0 <= pos <= s.len(),
        forall|i: int| pos <= i < s.len() ==> !raw_stop(#[trigger] s[i]),
    ensures
        raw_end(s, pos) == s.len(),
    decreases s.len() - pos,
{
    if pos < s.len() {
        lemma_raw_end_all(s, pos + 1);
    }
}

/// The concatenated text of the raw leaves of a stream, in order.
pub open spec fn raws_concat(t: Seq<ElementModel>) -> Seq<char>
    decreases t,
{
    if t.len() == 0 {
        Seq::empty()
    } else {
        (match t[0] {
            ElementModel::Raw(x) => x,
            _ => Seq::empty(),
        }) + raws_concat(t.subrange(1, t.len() as int))
    }
}

/// Plain text survives parsing unchanged: on a source without a command
/// sigil, a comment sigil or a closing brace, parsing succeeds and the
/// concatenation of the raw leaves reproduces the source exactly.
///
/// Escapes are the reason for the restriction: `\%` parses to the raw
/// leaf `%`, which is shorter than the source it came from.
pub proof fn lemma_plain_text_round_trip(s: Seq<char>)
    requires
        forall|i: int| 0 <= i < s.len() ==> !raw_stop(#[trigger] s[i]),
    ensures
        document_spec(s) matches Ok(t) && raws_concat(t) == s,
{
    if s.len() == 0 {
        assert(document_spec(s) == Ok::<_, ParseError>(Seq::<ElementModel>::empty()));
        assert(raws_concat(Seq::<ElementModel>::empty()) =~= s);
    } else {
        lemma_raw_end_all(s, 0);
        assert(stream_spec(s, s.len() as int, None) == Ok::<_, ParseError>(
            (s.len() as int, Seq::<ElementModel>::empty()),
        ));
        assert(s.subrange(0, s.len() as int) =~= s);
        let t = seq![ElementModel::Raw(s)];
        assert(t + Seq::<ElementModel>::empty() =~= t);
        assert(stream_spec(s, 0, None) == Ok::<_, ParseError>((s.len() as int, t)));
        assert(t.subrange(1, 1) =~= Seq::<ElementModel>::empty());
        assert(raws_concat(Seq::<ElementModel>::empty()) =~= Seq::<char>::empty());
        assert(s + Seq::<char>::empty() =~= s);
        assert(raws_concat(t) =~= s);
    }
}

/// The source text with every comment removed: a `%` and everything up to
/// the next newline drop out; all other text stays.
pub open spec fn strip_comments(s: Seq<char>, pos: int) -> Seq<char>
    decreases s.len() - pos
        when 0 <= pos <= s.len()
{
    if pos == s.len() {
        Seq::empty()
    } else if s[pos] == '%' {
        strip_comments(s, clamp(pos + 1, comment_end(s, pos + 1), s.len() as int))
    } else {
        let e = clamp(pos + 1, raw_end(s, pos), s.len() as int);
        s.subrange(pos, e) + strip_comments(s, e)
    }
}

/// Consing one element onto a stream concatenates its raw text in front.
proof fn lemma_raws_concat_cons(x: ElementModel, rest: Seq<ElementModel>)
    ensures
        raws_concat(seq![x] + rest) == (match x {
            ElementModel::Raw(t) => t,
            _ => Seq::<char>::empty(),
        }) + raws_concat(rest),
{
    let t = seq![x] + rest;
    assert(t[0] == x);
    assert(t.subrange(1, t.len() as int) =~= rest);
}

/// On a source without a command sigil or a closing brace, parsing
/// succeeds and the concatenation of the raw leaves reproduces the source
/// exactly, ignoring comments.
proof fn lemma_text_parses_to_raws(s: Seq<char>, pos: int)
    requires
        0 <= pos <= s.len(),
        forall|i: int| 0 <= i < s.len() ==> s[i] != '\\' && #[trigger] s[i] != '}',
    ensures
        stream_spec(s, pos, None) matches Ok((end, t)) && end == s.len() && raws_concat(t)
            == strip_comments(s, pos),
    decreases s.len() - pos,
{
    if pos == s.len() {
        assert(raws_concat(Seq::<ElementModel>::empty()) =~= Seq::<char>::empty());
    } else if s[pos] == '%' {
        let ce = clamp(pos + 1, comment_end(s, pos + 1), s.len() as int);
        lemma_comment_end(s, pos + 1);
        lemma_text_parses_to_raws(s, ce);
        match stream_spec(s, ce, None) {
            Err(_) => {},
            Ok((end, rest)) => {
                lemma_raws_concat_cons(ElementModel::Comment(s.subrange(pos + 1, ce)), rest);
                assert(Seq::<char>::empty() + raws_concat(rest) =~= raws_concat(rest));
            },
        }
    } else {
        assert(!raw_stop(s[pos]));
        assert(raw_end(s, pos) == raw_end(s, pos + 1));
        lemma_raw_end(s, pos + 1);
        let e = clamp(pos + 1, raw_end(s, pos), s.len() as int);
        lemma_text_parses_to_raws(s, e);
        match stream_spec(s, e, None) {
            Err(_) => {},
            Ok((end, rest)) => {
                lemma_raws_concat_cons(ElementModel::Raw(s.subrange(pos, e)), rest);
            },
        }
    }
}

/// Parsing loses no text: on a source without a command sigil or a
/// closing brace, the concatenation of the raw leaves of the parsed tree
/// reproduces the source exactly, ignoring comments.
///
/// Escapes are why commands are left out: `\%` parses to the raw leaf
/// `%`, which is shorter than the source it came from; a command's
/// brackets would likewise need reconstruction rather than concatenation.
pub proof fn lemma_text_round_trip_ignoring_comments(s: Seq<char>)
    requires
        forall|i: int| 0 <= i < s.len() ==> s[i] != '\\' && #[trigger] s[i] != '}',
    ensures
        document_spec(s) matches Ok(t) && raws_concat(t) == strip_comments(s, 0),
{
    lemma_text_parses_to_raws(s, 0);
}

/// Parsing is a mathematical function of the text alone: equal texts
/// parse to equal results.  Together with the contract of [`document`],
/// which pins its result to [`document_spec`], two runs of the parser on
/// one text always return structurally equal trees.
pub proof fn lemma_parse_deterministic(s1: Seq<char>, s2: Seq<char>)
    requires
        s1 == s2,
    ensures
        document_spec(s1) == document_spec(s2),
{
}

/// Parses a whole document.
///
/// Reads the source text `src` and returns the document's syntax tree as a
/// [`Stream`], or the first fatal [`ParseError`].  The result is exactly
/// what the grammar function [`document_spec`] assigns to the text, so two
/// parses of equal texts always return structurally equal trees.
pub fn document(src: &str) -> (r: Result<Stream, ParseError>)
    ensures
        match r {
            Ok(v) => document_spec(src@) == Ok::<_, ParseError>(stream_model(v@)),
            Err(e) => document_spec(src@) == Err::<Seq<ElementModel>, _>(e),
        },
{
    let n = src.unicode_len();
    match parse_stream(src, n, 0, None) {
        Err(e) => Err(e),
        Ok((end, v)) => {
            if end == n {
                Ok(v)
            } else {
                Err(ParseError::ExtraTrailing)
            }
        },
    }
}

} // verus!
