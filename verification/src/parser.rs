//! The parser: tokens to a tree of nodes.

use crate::error::{Error, ErrorView};
use crate::lexer::{fail, token_views, Instr, InstrView, Token, TokenView};
use crate::position::Position;
use crate::text::{clone_strings, push_str, string_of, texts};
use crate::value::Type;
use vstd::prelude::*;

verus! {

/// The syntactic payload of a node.
#[derive(Debug, PartialEq)]
pub enum NodeType {
    Chunk(Vec<Node>),
    String(String),
    Char(char),
    Int(i64),
    /// A floating-point literal, kept as it was written.
    Float(String),
    Boolean(bool),
    ID(String),
    Take(Vec<String>),
    CopyTo(Vec<String>),
    Copy(Box<Token>),
    If(Box<Node>, Option<Box<Node>>),
    Repeat(Box<Node>),
    Macro(String, Vec<Type>, Box<Node>),
}

/// A syntactic payload with the span of text it was read from.
#[derive(Debug, PartialEq)]
pub struct Node {
    pub node: NodeType,
    pub pos: Position,
}

/// What a `NodeType` holds.
pub enum NodeTypeView {
    Chunk(Seq<NodeView>),
    String(Seq<char>),
    Char(char),
    Int(i64),
    Float(Seq<char>),
    Boolean(bool),
    ID(Seq<char>),
    Take(Seq<Seq<char>>),
    CopyTo(Seq<Seq<char>>),
    Copy(Box<TokenView>),
    If(Box<NodeView>, Option<Box<NodeView>>),
    Repeat(Box<NodeView>),
    Macro(Seq<char>, Seq<Type>, Box<NodeView>),
}

/// What a `Node` holds.
pub struct NodeView {
    pub node: NodeTypeView,
    pub pos: Position,
}

/// What `n` holds.
pub open spec fn node_view(n: Node) -> NodeView
    decreases n,
{
    NodeView {
        node: match n.node {
            NodeType::Chunk(nodes) => NodeTypeView::Chunk(
                Seq::new(
                    nodes@.len(),
                    |i: int|
                        if 0 <= i < nodes@.len() {
                            node_view(nodes@[i])
                        } else {
                            arbitrary()
                        },
                ),
            ),
            NodeType::String(s) => NodeTypeView::String(s@),
            NodeType::Char(c) => NodeTypeView::Char(c),
            NodeType::Int(i) => NodeTypeView::Int(i),
            NodeType::Float(s) => NodeTypeView::Float(s@),
            NodeType::Boolean(b) => NodeTypeView::Boolean(b),
            NodeType::ID(s) => NodeTypeView::ID(s@),
            NodeType::Take(ids) => NodeTypeView::Take(texts(ids@)),
            NodeType::CopyTo(ids) => NodeTypeView::CopyTo(texts(ids@)),
            NodeType::Copy(token) => NodeTypeView::Copy(Box::new(token@)),
            NodeType::If(body, other) => NodeTypeView::If(
                Box::new(node_view(*body)),
                match other {
                    Some(e) => Some(Box::new(node_view(*e))),
                    None => None,
                },
            ),
            NodeType::Repeat(body) => NodeTypeView::Repeat(Box::new(node_view(*body))),
            NodeType::Macro(name, types, body) => NodeTypeView::Macro(
                name@,
                types@,
                Box::new(node_view(*body)),
            ),
        },
        pos: n.pos,
    }
}

impl View for Node {
    type V = NodeView;

    open spec fn view(&self) -> NodeView {
        node_view(*self)
    }
}

/// The views of a sequence of nodes.
pub open spec fn node_views(v: Seq<Node>) -> Seq<NodeView> {
    Seq::new(v.len(), |i: int| v[i]@)
}

/// Unfolds the view of a chunk.
pub proof fn chunk_view(n: Node)
    requires
        n.node is Chunk,
    ensures
        n@.node == NodeTypeView::Chunk(node_views(n.node->Chunk_0@)),
        n@.pos == n.pos,
{
    let nodes = n.node->Chunk_0;
    assert(n@.node is Chunk);
    assert(n@.node->Chunk_0 =~= node_views(nodes@));
}

/// Copies a list of types.
pub fn clone_types(v: &Vec<Type>) -> (r: Vec<Type>)
    ensures
        r@ == v@,
{
    let mut out: Vec<Type> = Vec::new();
    let mut i: usize = 0;
    while i < v.len()
        invariant
            i <= v.len(),
            out@ == v@.take(i as int),
        decreases v.len() - i,
    {
        out.push(v[i]);
        assert(v@.take(i + 1) =~= v@.take(i as int).push(v@[i as int]));
        i += 1;
    }
    assert(v@.take(v.len() as int) =~= v@);
    out
}

/// Copies a list of nodes.
pub fn clone_nodes(v: &Vec<Node>) -> (r: Vec<Node>)
    ensures
        node_views(r@) == node_views(v@),
    decreases v,
{
    let mut out: Vec<Node> = Vec::new();
    let mut i: usize = 0;
    while i < v.len()
        invariant
            i <= v.len(),
            out.len() == i,
            node_views(out@) == node_views(v@).take(i as int),
        decreases v.len() - i,
    {
        let ghost before = out@;
        let node = v[i].clone();
        out.push(node);
        assert forall|k: int| 0 <= k < i + 1 implies node_views(out@)[k] == node_views(v@).take(
            i + 1,
        )[k] by {
            if k < i {
                assert(out@[k] == before[k]);
                assert(node_views(before)[k] == node_views(v@).take(i as int)[k]);
            }
        }
        assert(node_views(out@) =~= node_views(v@).take(i + 1));
        i += 1;
    }
    assert(node_views(v@).take(v.len() as int) =~= node_views(v@));
    out
}

impl Node {
    /// The node `node` at `pos`.
    pub fn new(node: NodeType, pos: Position) -> (r: Self)
        ensures
            r.node == node,
            r.pos == pos,
    {
        Self { node, pos }
    }
}

impl Clone for Node {
    fn clone(&self) -> (r: Self)
        ensures
            r@ == self@,
        decreases self,
    {
        let node = match &self.node {
            NodeType::Chunk(nodes) => {
                let copy = clone_nodes(nodes);
                proof {
                    chunk_view(*self);
                }
                NodeType::Chunk(copy)
            },
            NodeType::String(s) => NodeType::String(s.clone()),
            NodeType::Char(c) => NodeType::Char(*c),
            NodeType::Int(i) => NodeType::Int(*i),
            NodeType::Float(s) => NodeType::Float(s.clone()),
            NodeType::Boolean(b) => NodeType::Boolean(*b),
            NodeType::ID(s) => NodeType::ID(s.clone()),
            NodeType::Take(ids) => NodeType::Take(clone_strings(ids)),
            NodeType::CopyTo(ids) => NodeType::CopyTo(clone_strings(ids)),
            NodeType::Copy(token) => {
                let inner: Token = (**token).clone();
                NodeType::Copy(Box::new(inner))
            },
            NodeType::If(body, other) => {
                let b: Node = (**body).clone();
                let o = match other {
                    Some(e) => {
                        let e2: Node = (**e).clone();
                        Some(Box::new(e2))
                    },
                    None => None,
                };
                NodeType::If(Box::new(b), o)
            },
            NodeType::Repeat(body) => {
                let b: Node = (**body).clone();
                NodeType::Repeat(Box::new(b))
            },
            NodeType::Macro(name, types, body) => {
                let b: Node = (**body).clone();
                NodeType::Macro(name.clone(), clone_types(types), Box::new(b))
            },
        };
        let r = Node { node, pos: self.pos.clone() };
        proof {
            if r.node is Chunk {
                chunk_view(r);
            }
        }
        r
    }
}

/// How a keyword is written in messages.
pub open spec fn keyword_text(instr: InstrView) -> Seq<char> {
    match instr {
        InstrView::End => ";"@,
        InstrView::If => "if"@,
        InstrView::Else => "else"@,
        InstrView::Repeat => "repeat"@,
        InstrView::Macro => "macro"@,
        _ => Seq::empty(),
    }
}

/// The error for a keyword found where a node has to start.
pub open spec fn unexpected(t: TokenView) -> ErrorView {
    fail(t.pos, "unexpected "@ + keyword_text(t.instr))
}

/// The error for a block that the tokens end in; `t` opened it.
pub open spec fn unclosed_block(t: TokenView) -> ErrorView {
    fail(t.pos, "unclosed "@ + t.instr.name())
}

/// The body of a block: its one node, or a chunk of its nodes where they
/// are none or several.
pub open spec fn wrap(nodes: Seq<NodeView>, pos: Position) -> NodeView {
    if nodes.len() == 1 {
        nodes[0]
    } else {
        NodeView { node: NodeTypeView::Chunk(nodes), pos }
    }
}

/// The node that a token is by itself, if it is one.
pub open spec fn leaf(instr: InstrView) -> Option<NodeTypeView> {
    match instr {
        InstrView::String(s) => Some(NodeTypeView::String(s)),
        InstrView::Char(c) => Some(NodeTypeView::Char(c)),
        InstrView::Int(i) => Some(NodeTypeView::Int(i)),
        InstrView::Float(s) => Some(NodeTypeView::Float(s)),
        InstrView::Boolean(b) => Some(NodeTypeView::Boolean(b)),
        InstrView::ID(s) => Some(NodeTypeView::ID(s)),
        InstrView::Take(ids) => Some(NodeTypeView::Take(ids)),
        InstrView::CopyTo(ids) => Some(NodeTypeView::CopyTo(ids)),
        InstrView::Copy(t) => Some(NodeTypeView::Copy(t)),
        _ => None,
    }
}

/// What parsing one node gives: the node and the index of the token
/// after it, the end of the tokens, or an error.
pub enum Parsed {
    Node(NodeView, int),
    End,
    Fail(ErrorView),
}

/// What parsing the body of a block gives. `Closed` holds the nodes, the
/// span grown over them, the index of the token that closes the body and
/// whether that token is `else`; `Open` says that the tokens ended first.
pub enum Body {
    Closed(Seq<NodeView>, Position, int, bool),
    Open,
    Fail(ErrorView),
}

/// The node that starts at token `i`. A literal, a name or a binding form
/// is a node by itself. `if` takes the nodes up to `end` as its body, or
/// up to `else` and then those up to `end` as a second body; `repeat`
/// takes the nodes up to `end`. The span of a block runs from its keyword
/// over its nodes. A block that the tokens end in is an error, and so is
/// `end`, `else` or `macro` where a node has to start.
pub open spec fn parse_node(tokens: Seq<TokenView>, i: int) -> Parsed
    decreases tokens.len() - i, 0nat,
{
    if i < 0 || i >= tokens.len() {
        Parsed::End
    } else {
        let t = tokens[i];
        match t.instr {
            InstrView::If => match parse_body(tokens, i + 1, t.pos, Seq::empty(), true) {
                Body::Fail(e) => Parsed::Fail(e),
                Body::Open => Parsed::Fail(unclosed_block(t)),
                Body::Closed(nodes, pos, j, by_else) => if !by_else {
                    Parsed::Node(
                        NodeView { node: NodeTypeView::If(Box::new(wrap(nodes, pos)), None), pos },
                        j + 1,
                    )
                } else if i < j < tokens.len() {
                    match parse_body(tokens, j + 1, pos, Seq::empty(), false) {
                        Body::Fail(e) => Parsed::Fail(e),
                        Body::Open => Parsed::Fail(unclosed_block(t)),
                        Body::Closed(others, end, k, _) => Parsed::Node(
                            NodeView {
                                node: NodeTypeView::If(
                                    Box::new(wrap(nodes, end)),
                                    Some(Box::new(wrap(others, end))),
                                ),
                                pos: end,
                            },
                            k + 1,
                        ),
                    }
                } else {
                    Parsed::Fail(unclosed_block(t))
                },
            },
            InstrView::Repeat => match parse_body(tokens, i + 1, t.pos, Seq::empty(), false) {
                Body::Fail(e) => Parsed::Fail(e),
                Body::Open => Parsed::Fail(unclosed_block(t)),
                Body::Closed(nodes, pos, j, _) => Parsed::Node(
                    NodeView { node: NodeTypeView::Repeat(Box::new(wrap(nodes, pos))), pos },
                    j + 1,
                ),
            },
            other => match leaf(other) {
                Some(node) => Parsed::Node(NodeView { node, pos: t.pos }, i + 1),
                None => Parsed::Fail(unexpected(t)),
            },
        }
    }
}

/// The body of a block from token `i` on, after the nodes `nodes` with
/// the span `pos`. `end` closes it, and so does `else` where
/// `else_closes` says so. (A node always ends after the token it starts
/// at, which the definition asks for to be well founded.)
pub open spec fn parse_body(
    tokens: Seq<TokenView>,
    i: int,
    pos: Position,
    nodes: Seq<NodeView>,
    else_closes: bool,
) -> Body
    decreases tokens.len() - i, 1nat,
{
    if i < 0 || i >= tokens.len() {
        Body::Open
    } else if tokens[i].instr is End {
        Body::Closed(nodes, pos, i, false)
    } else if tokens[i].instr is Else && else_closes {
        Body::Closed(nodes, pos, i, true)
    } else {
        match parse_node(tokens, i) {
            Parsed::Fail(e) => Body::Fail(e),
            Parsed::End => Body::Open,
            Parsed::Node(n, j) => if i < j <= tokens.len() {
                parse_body(tokens, j, pos.extended(n.pos), nodes.push(n), else_closes)
            } else {
                Body::Open
            },
        }
    }
}

/// The chunk of all nodes from token `i` on, after the nodes `nodes` with
/// the span `pos`.
pub open spec fn parse_rest(tokens: Seq<TokenView>, i: int, pos: Position, nodes: Seq<NodeView>) -> Result<
    NodeView,
    ErrorView,
>
    decreases tokens.len() - i,
{
    match parse_node(tokens, i) {
        Parsed::Fail(e) => Err(e),
        Parsed::End => Ok(NodeView { node: NodeTypeView::Chunk(nodes), pos }),
        Parsed::Node(n, j) => if i < j <= tokens.len() {
            parse_rest(tokens, j, pos.extended(n.pos), nodes.push(n))
        } else {
            Ok(NodeView { node: NodeTypeView::Chunk(nodes), pos })
        },
    }
}

/// The tree of `tokens` from token `i` on: a chunk of the nodes, whose
/// span runs from token `i` over all nodes. No tokens at all give an
/// empty chunk at the start of the text.
pub open spec fn parsed_from(tokens: Seq<TokenView>, i: int) -> Result<NodeView, ErrorView> {
    if tokens.len() == 0 {
        Ok(
            NodeView {
                node: NodeTypeView::Chunk(Seq::empty()),
                pos: Position {
                    idx: std::ops::Range { start: 0, end: 1 },
                    ln: std::ops::Range { start: 0, end: 1 },
                    col: std::ops::Range { start: 0, end: 1 },
                },
            },
        )
    } else {
        parse_rest(tokens, i, tokens[i].pos, Seq::empty())
    }
}

/// The tree of `tokens`.
pub open spec fn parsed(tokens: Seq<TokenView>) -> Result<NodeView, ErrorView> {
    parsed_from(tokens, 0)
}

/// Whether the outcome `r` of parsing a node, with the parser left at
/// token `stop`, is the outcome `p`.
pub open spec fn parsed_as(r: Result<Option<Node>, Error>, stop: int, p: Parsed) -> bool {
    match p {
        Parsed::Node(n, j) => r is Ok && r->Ok_0 is Some && r->Ok_0->0@ == n && stop == j,
        Parsed::End => r is Ok && r->Ok_0 is None,
        Parsed::Fail(e) => r is Err && r->Err_0@ == e,
    }
}

/// Whether `r` holds the tree or the error that `t` gives.
pub open spec fn tree_as(r: Result<Node, Error>, t: Result<NodeView, ErrorView>) -> bool {
    match t {
        Ok(n) => r is Ok && r->Ok_0@ == n,
        Err(e) => r is Err && r->Err_0@ == e,
    }
}

/// The one node of `nodes`, or a chunk of them at `pos`.
fn wrapped(nodes: Vec<Node>, pos: &Position) -> (r: Node)
    ensures
        r@ == wrap(node_views(nodes@), *pos),
{
    let mut nodes = nodes;
    if nodes.len() == 1 {
        let ghost all = nodes@;
        let node = nodes.pop().unwrap();
        assert(node@ == node_views(all)[0]);
        node
    } else {
        let r = Node::new(NodeType::Chunk(nodes), pos.clone());
        proof {
            chunk_view(r);
        }
        r
    }
}

/// The nodes of a body, and whether `else` closed it.
struct Block {
    nodes: Vec<Node>,
    by_else: bool,
}

/// A parser over one sequence of tokens.
pub struct Parser {
    tokens: Vec<Token>,
    idx: usize,
}

impl Parser {
    /// The tokens that are parsed.
    pub closed spec fn tokens(&self) -> Seq<TokenView> {
        token_views(self.tokens@)
    }

    /// The index of the token that the parser has come to.
    pub closed spec fn index(&self) -> int {
        self.idx as int
    }

    /// A parser at the first of `tokens`.
    pub fn new(tokens: Vec<Token>) -> (r: Self)
        ensures
            r.tokens() == token_views(tokens@),
            r.index() == 0,
    {
        Self { tokens, idx: 0 }
    }

    /// The token that the parser has come to.
    pub fn get(&self) -> (r: Option<&Token>)
        ensures
            match r {
                Some(t) => 0 <= self.index() < self.tokens().len() && t@ == self.tokens()[self.index()],
                None => self.index() >= self.tokens().len(),
            },
    {
        if self.idx < self.tokens.len() {
            Some(&self.tokens[self.idx])
        } else {
            None
        }
    }

    /// The span of the token that the parser has come to.
    pub fn pos(&self) -> (r: Option<&Position>)
        ensures
            match r {
                Some(p) => 0 <= self.index() < self.tokens().len() && *p
                    == self.tokens()[self.index()].pos,
                None => self.index() >= self.tokens().len(),
            },
    {
        if self.idx < self.tokens.len() {
            Some(&self.tokens[self.idx].pos)
        } else {
            None
        }
    }

    /// Moves on to the next token.
    pub fn advance(&mut self)
        ensures
            final(self).tokens() == old(self).tokens(),
            old(self).index() < usize::MAX ==> final(self).index() == old(self).index() + 1,
            old(self).index() == usize::MAX ==> final(self).index() == old(self).index(),
    {
        if self.idx < usize::MAX {
            self.idx = self.idx + 1;
        }
    }

    /// Parses the nodes of a body up to the token that closes it, which
    /// is left for the caller. `None` says that the tokens ended first.
    fn body(&mut self, pos: &mut Position, else_closes: bool) -> (r: Result<Option<Block>, Error>)
        requires
            old(self).index() <= old(self).tokens().len(),
        ensures
            final(self).tokens() == old(self).tokens(),
            match parse_body(
                old(self).tokens(),
                old(self).index(),
                *old(pos),
                Seq::empty(),
                else_closes,
            ) {
                Body::Closed(nodes, end, j, by_else) => {
                    &&& r is Ok
                    &&& r->Ok_0 is Some
                    &&& node_views(r->Ok_0->0.nodes@) == nodes
                    &&& r->Ok_0->0.by_else == by_else
                    &&& *final(pos) == end
                    &&& final(self).index() == j
                    &&& old(self).index() <= j < final(self).tokens().len()
                },
                Body::Open => r is Ok && r->Ok_0 is None,
                Body::Fail(e) => r is Err && r->Err_0@ == e,
            },
        decreases old(self).tokens().len() - old(self).index(), 1nat,
    {
        let mut nodes: Vec<Node> = Vec::new();
        let ghost want = parse_body(
            old(self).tokens(),
            old(self).index(),
            *old(pos),
            Seq::empty(),
            else_closes,
        );
        assert(node_views(nodes@) =~= Seq::<NodeView>::empty());
        loop
            invariant
                self.tokens() == old(self).tokens(),
                old(self).index() <= self.index() <= self.tokens().len(),
                want == parse_body(
                    old(self).tokens(),
                    old(self).index(),
                    *old(pos),
                    Seq::empty(),
                    else_closes,
                ),
                want == parse_body(
                    self.tokens(),
                    self.index(),
                    *pos,
                    node_views(nodes@),
                    else_closes,
                ),
            decreases self.tokens().len() - self.index(),
        {
            if self.idx >= self.tokens.len() {
                return Ok(None);
            }
            let closes: Option<bool> = match &self.tokens[self.idx].instr {
                Instr::End => Some(false),
                Instr::Else => if else_closes {
                    Some(true)
                } else {
                    None
                },
                _ => None,
            };
            match closes {
                Some(by_else) => {
                    return Ok(Some(Block { nodes, by_else }));
                },
                None => {},
            }
            let ghost before = node_views(nodes@);
            match self.next() {
                Err(e) => {
                    return Err(e);
                },
                Ok(None) => {
                    return Ok(None);
                },
                Ok(Some(node)) => {
                    pos.extend(node.pos.clone());
                    nodes.push(node);
                    assert(node_views(nodes@) =~= before.push(node@));
                },
            }
        }
    }

    /// An error at the token `i`, with `what` before the text `tail`.
    fn complain(&self, i: usize, what: &str, tail: &str) -> (r: Error)
        requires
            i < self.tokens().len(),
        ensures
            r@ == fail(self.tokens()[i as int].pos, what@ + tail@),
    {
        let mut msg: Vec<char> = Vec::new();
        push_str(&mut msg, what);
        push_str(&mut msg, tail);
        Error::new(string_of(&msg), Some(self.tokens[i].pos.clone()))
    }

    /// Parses the node that starts at the token the parser has come to;
    /// `None` where no token is left.
    pub fn next(&mut self) -> (r: Result<Option<Node>, Error>)
        ensures
            final(self).tokens() == old(self).tokens(),
            parsed_as(r, final(self).index(), parse_node(old(self).tokens(), old(self).index())),
            r is Ok && r->Ok_0 is Some ==> old(self).index() < final(self).index()
                <= final(self).tokens().len(),
            r is Ok && r->Ok_0 is None ==> final(self).index() == old(self).index(),
        decreases old(self).tokens().len() - old(self).index(), 0nat,
    {
        if self.idx >= self.tokens.len() {
            return Ok(None);
        }
        let at: usize = self.idx;
        let ghost t = self.tokens()[at as int];
        let mut pos = self.tokens[at].pos.clone();
        let leaf: Option<NodeType> = match &self.tokens[at].instr {
            Instr::String(s) => Some(NodeType::String(s.clone())),
            Instr::Char(c) => Some(NodeType::Char(*c)),
            Instr::Int(i) => Some(NodeType::Int(*i)),
            Instr::Float(s) => Some(NodeType::Float(s.clone())),
            Instr::Boolean(b) => Some(NodeType::Boolean(*b)),
            Instr::ID(s) => Some(NodeType::ID(s.clone())),
            Instr::Take(ids) => Some(NodeType::Take(clone_strings(ids))),
            Instr::CopyTo(ids) => Some(NodeType::CopyTo(clone_strings(ids))),
            Instr::Copy(token) => {
                let inner: Token = (**token).clone();
                Some(NodeType::Copy(Box::new(inner)))
            },
            _ => None,
        };
        match leaf {
            Some(node) => {
                self.advance();
                return Ok(Some(Node::new(node, pos)));
            },
            None => {},
        }
        let is_if = match &self.tokens[at].instr {
            Instr::If => true,
            _ => false,
        };
        let is_repeat = match &self.tokens[at].instr {
            Instr::Repeat => true,
            _ => false,
        };
        if is_if {
            self.advance();
            match self.body(&mut pos, true) {
                Err(e) => Err(e),
                Ok(None) => Err(self.complain(at, "unclosed ", "if-control-flow instruction")),
                Ok(Some(Block { nodes, by_else })) => {
                    self.advance();
                    if !by_else {
                        let body = wrapped(nodes, &pos);
                        Ok(Some(Node::new(NodeType::If(Box::new(body), None), pos)))
                    } else {
                        match self.body(&mut pos, false) {
                            Err(e) => Err(e),
                            Ok(None) => Err(
                                self.complain(at, "unclosed ", "if-control-flow instruction"),
                            ),
                            Ok(Some(Block { nodes: others, by_else: _ })) => {
                                self.advance();
                                let other = wrapped(others, &pos);
                                let body = wrapped(nodes, &pos);
                                Ok(
                                    Some(
                                        Node::new(
                                            NodeType::If(Box::new(body), Some(Box::new(other))),
                                            pos,
                                        ),
                                    ),
                                )
                            },
                        }
                    }
                },
            }
        } else if is_repeat {
            self.advance();
            match self.body(&mut pos, false) {
                Err(e) => Err(e),
                Ok(None) => Err(self.complain(at, "unclosed ", "repeat-control-flow instruction")),
                Ok(Some(Block { nodes, by_else: _ })) => {
                    self.advance();
                    let body = wrapped(nodes, &pos);
                    Ok(Some(Node::new(NodeType::Repeat(Box::new(body)), pos)))
                },
            }
        } else {
            let shown = match &self.tokens[at].instr {
                Instr::End => ";",
                Instr::Else => "else",
                Instr::Macro => "macro",
                _ => "",
            };
            assert(shown@ == keyword_text(t.instr)) by {
                reveal_strlit("");
            }
            Err(self.complain(at, "unexpected ", shown))
        }
    }

    /// Parses all the tokens that are left into one chunk.
    pub fn parse(&mut self) -> (r: Result<Node, Error>)
        requires
            old(self).tokens().len() == 0 || old(self).index() < old(self).tokens().len(),
        ensures
            final(self).tokens() == old(self).tokens(),
            tree_as(r, parsed_from(old(self).tokens(), old(self).index())),
    {
        if self.tokens.len() == 0 {
            let r = Node::new(NodeType::Chunk(Vec::new()), Position::zero());
            proof {
                chunk_view(r);
                assert(node_views(r.node->Chunk_0@) =~= Seq::<NodeView>::empty());
            }
            return Ok(r);
        }
        let mut nodes: Vec<Node> = Vec::new();
        let mut pos = self.tokens[self.idx].pos.clone();
        assert(node_views(nodes@) =~= Seq::<NodeView>::empty());
        loop
            invariant
                self.tokens() == old(self).tokens(),
                0 <= self.index() <= self.tokens().len(),
                parsed_from(old(self).tokens(), old(self).index()) == parse_rest(
                    self.tokens(),
                    self.index(),
                    pos,
                    node_views(nodes@),
                ),
            decreases self.tokens().len() - self.index(),
        {
            let ghost before = node_views(nodes@);
            match self.next() {
                Err(e) => {
                    return Err(e);
                },
                Ok(None) => {
                    let r = Node::new(NodeType::Chunk(nodes), pos);
                    proof {
                        chunk_view(r);
                    }
                    return Ok(r);
                },
                Ok(Some(node)) => {
                    pos.extend(node.pos.clone());
                    nodes.push(node);
                    assert(node_views(nodes@) =~= before.push(node@));
                },
            }
        }
    }
}

/// Parses `tokens` into a tree. It fails on a block that is not closed,
/// and on `end`, `else` or `macro` where a node has to start.
pub fn parse(tokens: Vec<Token>) -> (r: Result<Node, Error>)
    ensures
        tree_as(r, parsed(token_views(tokens@))),
{
    let mut parser = Parser::new(tokens);
    parser.parse()
}

} // verus!
