use stacklang::lexer::{lex, Instr, Token};
use stacklang::parser::{parse, Node, NodeType, Parser};
use stacklang::position::Position;
use stacklang::value::Type;

fn tree(source: &str) -> Node {
    parse(lex(source.to_string()).unwrap()).unwrap()
}

fn children(source: &str) -> Vec<Node> {
    match tree(source).node {
        NodeType::Chunk(nodes) => nodes,
        other => panic!("{:?}", other),
    }
}

fn failure(source: &str) -> (String, Option<Position>) {
    let e = parse(lex(source.to_string()).unwrap()).unwrap_err();
    (e.msg().clone(), e.pos().clone())
}

fn at(idx: std::ops::Range<usize>) -> Position {
    Position::new(idx.clone(), 0..1, idx)
}

#[test]
fn no_tokens_give_an_empty_chunk() {
    assert_eq!(parse(vec![]).unwrap(), Node::new(NodeType::Chunk(vec![]), Position::zero()));
    assert_eq!(tree("  # nothing"), Node::new(NodeType::Chunk(vec![]), Position::zero()));
}

#[test]
fn leaves_become_nodes() {
    let nodes = children("\"s\" 'c' 7 1.5 true x (a b) {c} @y");
    assert_eq!(nodes.len(), 9);
    assert_eq!(nodes[0], Node::new(NodeType::String("s".to_string()), at(0..3)));
    assert_eq!(nodes[1], Node::new(NodeType::Char('c'), at(4..7)));
    assert_eq!(nodes[2], Node::new(NodeType::Int(7), at(8..9)));
    assert_eq!(nodes[3], Node::new(NodeType::Float("1.5".to_string()), at(10..13)));
    assert_eq!(nodes[4], Node::new(NodeType::Boolean(true), at(14..18)));
    assert_eq!(nodes[5], Node::new(NodeType::ID("x".to_string()), at(19..20)));
    assert_eq!(
        nodes[6],
        Node::new(NodeType::Take(vec!["b".to_string(), "a".to_string()]), at(21..26))
    );
    assert_eq!(nodes[7], Node::new(NodeType::CopyTo(vec!["c".to_string()]), at(27..30)));
    assert_eq!(
        nodes[8],
        Node::new(
            NodeType::Copy(Box::new(Token::new(Instr::ID("y".to_string()), at(32..33)))),
            at(31..33)
        )
    );
}

#[test]
fn root_is_a_chunk_over_all_nodes() {
    let root = tree("1 2");
    assert_eq!(root.pos, at(0..3));
    let root = tree("1");
    assert_eq!(
        root,
        Node::new(NodeType::Chunk(vec![Node::new(NodeType::Int(1), at(0..1))]), at(0..1))
    );
}

#[test]
fn parses_if_with_else() {
    let nodes = children("true if 1 else 2 end");
    assert_eq!(nodes.len(), 2);
    assert_eq!(
        nodes[1],
        Node::new(
            NodeType::If(
                Box::new(Node::new(NodeType::Int(1), at(8..9))),
                Some(Box::new(Node::new(NodeType::Int(2), at(15..16))))
            ),
            at(5..16)
        )
    );
    assert_eq!(tree("true if 1 else 2 end").pos, at(0..16));
}

#[test]
fn parses_if_without_else() {
    let nodes = children("if x end");
    assert_eq!(
        nodes[0],
        Node::new(
            NodeType::If(Box::new(Node::new(NodeType::ID("x".to_string()), at(3..4))), None),
            at(0..4)
        )
    );
}

#[test]
fn body_of_several_nodes_is_a_chunk() {
    let nodes = children("if 1 2 end");
    assert_eq!(
        nodes[0],
        Node::new(
            NodeType::If(
                Box::new(Node::new(
                    NodeType::Chunk(vec![
                        Node::new(NodeType::Int(1), at(3..4)),
                        Node::new(NodeType::Int(2), at(5..6))
                    ]),
                    at(0..6)
                )),
                None
            ),
            at(0..6)
        )
    );
}

#[test]
fn empty_body_is_an_empty_chunk() {
    let nodes = children("if end");
    assert_eq!(
        nodes[0],
        Node::new(
            NodeType::If(Box::new(Node::new(NodeType::Chunk(vec![]), at(0..2))), None),
            at(0..2)
        )
    );
    let nodes = children("if else end");
    assert_eq!(
        nodes[0],
        Node::new(
            NodeType::If(
                Box::new(Node::new(NodeType::Chunk(vec![]), at(0..2))),
                Some(Box::new(Node::new(NodeType::Chunk(vec![]), at(0..2))))
            ),
            at(0..2)
        )
    );
}

#[test]
fn parses_repeat() {
    let nodes = children("3 repeat 1 end");
    assert_eq!(
        nodes[1],
        Node::new(NodeType::Repeat(Box::new(Node::new(NodeType::Int(1), at(9..10)))), at(2..10))
    );
}

#[test]
fn blocks_nest() {
    let nodes = children("repeat if 1 end 2 end 3");
    assert_eq!(nodes.len(), 2);
    match &nodes[0].node {
        NodeType::Repeat(body) => match &body.node {
            NodeType::Chunk(inner) => {
                assert_eq!(inner.len(), 2);
                assert!(matches!(inner[0].node, NodeType::If(_, None)));
                assert_eq!(inner[1].node, NodeType::Int(2));
            }
            other => panic!("{:?}", other),
        },
        other => panic!("{:?}", other),
    }
    assert_eq!(nodes[1].node, NodeType::Int(3));
}

#[test]
fn keyword_where_a_node_starts_fails() {
    assert_eq!(failure("end"), ("unexpected ;".to_string(), Some(at(0..3))));
    assert_eq!(failure("1 else"), ("unexpected else".to_string(), Some(at(2..6))));
    assert_eq!(failure("macro"), ("unexpected macro".to_string(), Some(at(0..5))));
    assert_eq!(failure("if 1 end end"), ("unexpected ;".to_string(), Some(at(9..12))));
    assert_eq!(failure("if 1 else 2 else 3 end").0, "unexpected else");
    assert_eq!(failure("repeat 1 else 2 end").0, "unexpected else");
}

#[test]
fn unclosed_block_fails() {
    assert_eq!(
        failure("if 1"),
        ("unclosed if-control-flow instruction".to_string(), Some(at(0..2)))
    );
    assert_eq!(failure("if").0, "unclosed if-control-flow instruction");
    assert_eq!(
        failure("1 if 2 else 3"),
        ("unclosed if-control-flow instruction".to_string(), Some(at(2..4)))
    );
    assert_eq!(
        failure("repeat 1 2"),
        ("unclosed repeat-control-flow instruction".to_string(), Some(at(0..6)))
    );
    assert_eq!(failure("if repeat 1 end").0, "unclosed if-control-flow instruction");
}

#[test]
fn parser_moves_by_hand() {
    let mut parser = Parser::new(lex("1 x".to_string()).unwrap());
    assert_eq!(parser.get().unwrap().instr, Instr::Int(1));
    assert_eq!(parser.pos(), Some(&at(0..1)));
    parser.advance();
    assert_eq!(parser.get().unwrap().instr, Instr::ID("x".to_string()));
    assert_eq!(parser.next().unwrap().unwrap().node, NodeType::ID("x".to_string()));
    assert!(parser.get().is_none());
    assert!(parser.pos().is_none());
    assert_eq!(parser.next().unwrap(), None);
    parser.advance();
    assert!(parser.get().is_none());
}

#[test]
fn parse_goes_on_from_where_the_parser_stands() {
    let mut parser = Parser::new(lex("1 2 3".to_string()).unwrap());
    parser.advance();
    let root = parser.parse().unwrap();
    assert_eq!(root.pos, at(2..5));
    match root.node {
        NodeType::Chunk(nodes) => assert_eq!(nodes.len(), 2),
        other => panic!("{:?}", other),
    }
}

#[test]
fn span_of_a_node_never_ends_before_it_starts() {
    let tokens = vec![
        Token::new(Instr::Int(1), at(10..11)),
        Token::new(Instr::Int(2), at(3..4)),
    ];
    let root = parse(tokens).unwrap();
    assert_eq!(root.pos, at(10..11));
}

#[test]
fn clone_of_a_tree_is_equal() {
    let root = tree("1 if \"a\" (x y) else repeat @z 2.5 end end {w} 'c' true");
    assert_eq!(root.clone(), root);
    let body = Node::new(NodeType::Int(1), Position::zero());
    let node = Node::new(
        NodeType::Macro("m".to_string(), vec![Type::Int, Type::Any], Box::new(body)),
        Position::zero(),
    );
    assert_eq!(node.clone(), node);
}
