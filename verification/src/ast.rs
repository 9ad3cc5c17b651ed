//! The abstract syntax tree and the recursive-descent parser.
//!
//! `Node` is the executable tree: children are optional, shared, immutable
//! references, built bottom-up so the tree is acyclic. `NodeModel` is its
//! mathematical value. The parser consumes a lexer through one token of
//! lookahead and is proved to follow the spec-level grammar functions
//! (`spec_program` and friends), so a parse is a function of the token
//! sequence alone.

use vstd::prelude::*;
use std::rc::Rc;
use crate::token::{JsLexer, Token, TokenModel, keyword_var};

verus! {

broadcast use vstd::std_specs::vec::group_vec_axioms;

/// One node of the abstract syntax tree. No node is mutated after
/// construction; children are omitted (`None`) only where the grammar allows.
#[derive(Debug, Clone, PartialEq, Eq)]
pub enum Node {
    ExpressionStatement(Option<Rc<Node>>),
    AdditiveExpression { operator: char, left: Option<Rc<Node>>, right: Option<Rc<Node>> },
    AssignmentExpression { operator: char, left: Option<Rc<Node>>, right: Option<Rc<Node>> },
    MemberExpression { object: Option<Rc<Node>>, property: Option<Rc<Node>> },
    NumericLiteral(u64),
    VariableDeclaration { declarations: Vec<Option<Rc<Node>>> },
    VariableDeclarator { id: Option<Rc<Node>>, init: Option<Rc<Node>> },
    Identifier(String),
    StringLiteral(String),
}

/// The mathematical value of a `Node`: sharing is forgotten, text becomes a
/// character sequence.
pub enum NodeModel {
    ExpressionStatement(Option<Box<NodeModel>>),
    AdditiveExpression { operator: char, left: Option<Box<NodeModel>>, right: Option<Box<NodeModel>> },
    AssignmentExpression { operator: char, left: Option<Box<NodeModel>>, right: Option<Box<NodeModel>> },
    MemberExpression { object: Option<Box<NodeModel>>, property: Option<Box<NodeModel>> },
    NumericLiteral(u64),
    VariableDeclaration { declarations: Seq<Option<NodeModel>> },
    VariableDeclarator { id: Option<Box<NodeModel>>, init: Option<Box<NodeModel>> },
    Identifier(Seq<char>),
    StringLiteral(Seq<char>),
}

/// The model of an optional child reference.
pub open spec fn child_model(c: Option<Rc<Node>>) -> Option<Box<NodeModel>>
    decreases c,
{
    match c {
        Option::None => Option::None,
        Option::Some(rc) => Option::Some(Box::new(node_model(*rc))),
    }
}

/// The model of one slot of a declaration list.
pub open spec fn elem_model(e: Option<Rc<Node>>) -> Option<NodeModel>
    decreases e,
{
    match e {
        Option::None => Option::None,
        Option::Some(rc) => Option::Some(node_model(*rc)),
    }
}

/// The model of a declaration list.
pub open spec fn decls_model(ds: Seq<Option<Rc<Node>>>) -> Seq<Option<NodeModel>>
    decreases ds,
{
    if ds.len() == 0 {
        Seq::empty()
    } else {
        seq![elem_model(ds[0])] + decls_model(ds.drop_first())
    }
}

/// The model of a node.
pub open spec fn node_model(n: Node) -> NodeModel
    decreases n,
{
    match n {
        Node::ExpressionStatement(c) => NodeModel::ExpressionStatement(child_model(c)),
        Node::AdditiveExpression { operator, left, right } => NodeModel::AdditiveExpression {
            operator,
            left: child_model(left),
            right: child_model(right),
        },
        Node::AssignmentExpression { operator, left, right } => NodeModel::AssignmentExpression {
            operator,
            left: child_model(left),
            right: child_model(right),
        },
        Node::MemberExpression { object, property } => NodeModel::MemberExpression {
            object: child_model(object),
            property: child_model(property),
        },
        Node::NumericLiteral(v) => NodeModel::NumericLiteral(v),
        Node::VariableDeclaration { declarations } => NodeModel::VariableDeclaration {
            declarations: decls_model(declarations@),
        },
        Node::VariableDeclarator { id, init } => NodeModel::VariableDeclarator {
            id: child_model(id),
            init: child_model(init),
        },
        Node::Identifier(name) => NodeModel::Identifier(name@),
        Node::StringLiteral(v) => NodeModel::StringLiteral(v@),
    }
}

impl View for Node {
    type V = NodeModel;

    open spec fn view(&self) -> NodeModel {
        node_model(*self)
    }
}

/// The model of a statement list.
pub open spec fn body_model(s: Seq<Rc<Node>>) -> Seq<NodeModel> {
    s.map_values(|n: Rc<Node>| n@)
}

/// An ordered sequence of top-level statements; statement order is source
/// order and execution order.
#[derive(Debug, Clone, PartialEq, Eq)]
pub struct Program {
    body: Vec<Rc<Node>>,
}

impl View for Program {
    type V = Seq<NodeModel>;

    closed spec fn view(&self) -> Seq<NodeModel> {
        body_model(self.body@)
    }
}

impl Program {
    pub fn new() -> (r: Program)
        ensures
            r@ == Seq::<NodeModel>::empty(),
    {
        let r = Program { body: Vec::new() };
        proof {
            assert(r@ =~= Seq::<NodeModel>::empty());
        }
        r
    }

    pub fn set_body(&mut self, body: Vec<Rc<Node>>)
        ensures
            final(self)@ == body_model(body@),
    {
        self.body = body;
    }

    pub fn body(&self) -> (r: &Vec<Rc<Node>>)
        ensures
            body_model(r@) == self@,
    {
        &self.body
    }
}

impl Node {
    pub fn new_expression_statement(node: Option<Rc<Node>>) -> (r: Option<Rc<Node>>)
        ensures
            r matches Some(n) && n@ == NodeModel::ExpressionStatement(child_model(node)),
    {
        Some(Rc::new(Node::ExpressionStatement(node)))
    }

    pub fn new_additive_expression(
        operator: char,
        left: Option<Rc<Node>>,
        right: Option<Rc<Node>>,
    ) -> (r: Option<Rc<Node>>)
        ensures
            r matches Some(n) && n@ == (NodeModel::AdditiveExpression {
                operator,
                left: child_model(left),
                right: child_model(right),
            }),
    {
        Some(Rc::new(Node::AdditiveExpression { operator, left, right }))
    }

    pub fn new_assignment_expression(
        operator: char,
        left: Option<Rc<Node>>,
        right: Option<Rc<Node>>,
    ) -> (r: Option<Rc<Node>>)
        ensures
            r matches Some(n) && n@ == (NodeModel::AssignmentExpression {
                operator,
                left: child_model(left),
                right: child_model(right),
            }),
    {
        Some(Rc::new(Node::AssignmentExpression { operator, left, right }))
    }

    pub fn new_member_expression(
        object: Option<Rc<Node>>,
        property: Option<Rc<Node>>,
    ) -> (r: Option<Rc<Node>>)
        ensures
            r matches Some(n) && n@ == (NodeModel::MemberExpression {
                object: child_model(object),
                property: child_model(property),
            }),
    {
        Some(Rc::new(Node::MemberExpression { object, property }))
    }

    pub fn new_numeric_literal(value: u64) -> (r: Option<Rc<Node>>)
        ensures
            r matches Some(n) && n@ == NodeModel::NumericLiteral(value),
    {
        Some(Rc::new(Node::NumericLiteral(value)))
    }

    pub fn new_variable_declarator(
        id: Option<Rc<Node>>,
        init: Option<Rc<Node>>,
    ) -> (r: Option<Rc<Node>>)
        ensures
            r matches Some(n) && n@ == (NodeModel::VariableDeclarator {
                id: child_model(id),
                init: child_model(init),
            }),
    {
        Some(Rc::new(Node::VariableDeclarator { id, init }))
    }

    pub fn new_variable_declaration(declarations: Vec<Option<Rc<Node>>>) -> (r: Option<Rc<Node>>)
        ensures
            r matches Some(n) && n@ == (NodeModel::VariableDeclaration {
                declarations: decls_model(declarations@),
            }),
    {
        Some(Rc::new(Node::VariableDeclaration { declarations }))
    }

    pub fn new_identifier(name: String) -> (r: Option<Rc<Node>>)
        ensures
            r matches Some(n) && n@ == NodeModel::Identifier(name@),
    {
        Some(Rc::new(Node::Identifier(name)))
    }

    pub fn new_string_literal(value: String) -> (r: Option<Rc<Node>>)
        ensures
            r matches Some(n) && n@ == NodeModel::StringLiteral(value@),
    {
        Some(Rc::new(Node::StringLiteral(value)))
    }
}

/// Why a parse failed: a production required a token that was absent, or of
/// the wrong kind.
#[derive(Debug, Clone, Copy, PartialEq, Eq, Structural)]
pub enum ParseError {
    UnexpectedToken,
    UnexpectedEndOfInput,
}

/// What one grammar production yields: the node it built and the tokens it
/// left, or a parse error.
pub type ParseOutcome = Result<(NodeModel, Seq<TokenModel>), ParseError>;

/// Bounds a production's leftover tokens by its input; the productions below
/// never actually leave more than they were given, so this changes nothing of
/// their value, but it makes termination of the grammar evident.
pub open spec fn clip(ts: Seq<TokenModel>, r: ParseOutcome) -> ParseOutcome {
    match r {
        Ok((n, rest)) => if rest.len() <= ts.len() {
            Ok((n, rest))
        } else {
            Ok((n, ts))
        },
        Err(e) => Err(e),
    }
}

/// PrimaryExpression := Identifier | StringLiteral | Number
pub open spec fn spec_primary(ts: Seq<TokenModel>) -> ParseOutcome {
    if ts.len() == 0 {
        Err(ParseError::UnexpectedEndOfInput)
    } else {
        match ts[0] {
            TokenModel::Identifier(name) => Ok((NodeModel::Identifier(name), ts.drop_first())),
            TokenModel::StringLiteral(v) => Ok((NodeModel::StringLiteral(v), ts.drop_first())),
            TokenModel::Number(v) => Ok((NodeModel::NumericLiteral(v), ts.drop_first())),
            _ => Err(ParseError::UnexpectedToken),
        }
    }
}

/// AdditiveExpression := LeftHandSideExpression (('+' | '-') AssignmentExpression)?
///
/// The right operand is an assignment-level expression, so chained additive
/// expressions associate to the right; this mirrors the grammar deliberately.
pub open spec fn spec_additive(ts: Seq<TokenModel>) -> ParseOutcome
    decreases ts.len(), 0int,
{
    match clip(ts, spec_primary(ts)) {
        Err(e) => Err(e),
        Ok((left, rest1)) => if rest1.len() > 0 && (rest1[0] == TokenModel::Punctuator('+')
            || rest1[0] == TokenModel::Punctuator('-')) {
            let op = if rest1[0] == TokenModel::Punctuator('+') {
                '+'
            } else {
                '-'
            };
            match clip(rest1.drop_first(), spec_assignment(rest1.drop_first())) {
                Err(e) => Err(e),
                Ok((right, rest2)) => Ok(
                    (
                        NodeModel::AdditiveExpression {
                            operator: op,
                            left: Some(Box::new(left)),
                            right: Some(Box::new(right)),
                        },
                        rest2,
                    ),
                ),
            }
        } else {
            Ok((left, rest1))
        },
    }
}

/// AssignmentExpression := AdditiveExpression ('=' AssignmentExpression)?
pub open spec fn spec_assignment(ts: Seq<TokenModel>) -> ParseOutcome
    decreases ts.len(), 1int,
{
    match clip(ts, spec_additive(ts)) {
        Err(e) => Err(e),
        Ok((expr, rest1)) => if rest1.len() > 0 && rest1[0] == TokenModel::Punctuator('=') {
            match clip(rest1.drop_first(), spec_assignment(rest1.drop_first())) {
                Err(e) => Err(e),
                Ok((rhs, rest2)) => Ok(
                    (
                        NodeModel::AssignmentExpression {
                            operator: '=',
                            left: Some(Box::new(expr)),
                            right: Some(Box::new(rhs)),
                        },
                        rest2,
                    ),
                ),
            }
        } else {
            Ok((expr, rest1))
        },
    }
}

/// The identifier a declaration binds.
pub open spec fn spec_identifier(ts: Seq<TokenModel>) -> ParseOutcome {
    if ts.len() == 0 {
        Err(ParseError::UnexpectedEndOfInput)
    } else {
        match ts[0] {
            TokenModel::Identifier(name) => Ok((NodeModel::Identifier(name), ts.drop_first())),
            _ => Err(ParseError::UnexpectedToken),
        }
    }
}

/// Initialiser := '=' AssignmentExpression — optional: without a leading '='
/// nothing is consumed and no initialiser is produced.
pub open spec fn spec_initialiser(ts: Seq<TokenModel>) -> Result<
    (Option<NodeModel>, Seq<TokenModel>),
    ParseError,
> {
    if ts.len() > 0 && ts[0] == TokenModel::Punctuator('=') {
        match clip(ts.drop_first(), spec_assignment(ts.drop_first())) {
            Err(e) => Err(e),
            Ok((n, rest)) => Ok((Some(n), rest)),
        }
    } else {
        Ok((None, ts))
    }
}

/// VariableDeclarationList := VariableDeclarator := Identifier Initialiser?
/// (one declarator per declaration in this grammar); `ts` starts after the
/// `var` keyword.
pub open spec fn spec_variable_declaration(ts: Seq<TokenModel>) -> ParseOutcome {
    match spec_identifier(ts) {
        Err(e) => Err(e),
        Ok((id, rest1)) => match spec_initialiser(rest1) {
            Err(e) => Err(e),
            Ok((init, rest2)) => Ok(
                (
                    NodeModel::VariableDeclaration {
                        declarations: seq![
                            Some(
                                NodeModel::VariableDeclarator {
                                    id: Some(Box::new(id)),
                                    init: match init {
                                        Some(n) => Some(Box::new(n)),
                                        None => None,
                                    },
                                },
                            ),
                        ],
                    },
                    rest2,
                ),
            ),
        },
    }
}

/// A semicolon after a statement is an optional terminator: consumed if
/// present, otherwise left alone.
pub open spec fn skip_semicolon(r: ParseOutcome) -> ParseOutcome {
    match r {
        Ok((n, rest)) => if rest.len() > 0 && rest[0] == TokenModel::Punctuator(';') {
            Ok((n, rest.drop_first()))
        } else {
            Ok((n, rest))
        },
        Err(e) => Err(e),
    }
}

/// Statement := 'var' VariableDeclarationList (';')? | ExpressionStatement
pub open spec fn spec_statement(ts: Seq<TokenModel>) -> ParseOutcome {
    if ts.len() == 0 {
        Err(ParseError::UnexpectedEndOfInput)
    } else {
        match ts[0] {
            TokenModel::Keyword(k) => if k == keyword_var() {
                skip_semicolon(spec_variable_declaration(ts.drop_first()))
            } else {
                Err(ParseError::UnexpectedToken)
            },
            _ => skip_semicolon(
                match spec_assignment(ts) {
                    Err(e) => Err(e),
                    Ok((e, rest)) => Ok((NodeModel::ExpressionStatement(Some(Box::new(e))), rest)),
                },
            ),
        }
    }
}

/// A successful expression parse leaves no more tokens than it was given.
pub proof fn lemma_spec_assignment_le(ts: Seq<TokenModel>)
    ensures
        spec_assignment(ts) matches Ok(p) ==> p.1.len() <= ts.len(),
{
}

/// A successful expression parse of a nonempty input consumes at least one
/// token.
pub proof fn lemma_spec_additive_progress(ts: Seq<TokenModel>)
    requires
        ts.len() > 0,
    ensures
        spec_additive(ts) matches Ok(p) ==> p.1.len() < ts.len(),
{
}

pub proof fn lemma_spec_assignment_progress(ts: Seq<TokenModel>)
    requires
        ts.len() > 0,
    ensures
        spec_assignment(ts) matches Ok(p) ==> p.1.len() < ts.len(),
{
    lemma_spec_additive_progress(ts);
}

pub proof fn lemma_spec_initialiser_le(ts: Seq<TokenModel>)
    ensures
        spec_initialiser(ts) matches Ok(p) ==> p.1.len() <= ts.len(),
{
}

pub proof fn lemma_spec_variable_declaration_le(ts: Seq<TokenModel>)
    ensures
        spec_variable_declaration(ts) matches Ok(p) ==> p.1.len() <= ts.len(),
{
    lemma_spec_initialiser_le(match spec_identifier(ts) {
        Ok(p) => p.1,
        Err(_) => ts,
    });
}

/// A successful statement parse always consumes at least one token; this is
/// why parsing a whole program terminates.
pub proof fn lemma_spec_statement_progress(ts: Seq<TokenModel>)
    requires
        ts.len() > 0,
    ensures
        spec_statement(ts) matches Ok(p) ==> p.1.len() < ts.len(),
{
    lemma_spec_variable_declaration_le(ts.drop_first());
    lemma_spec_assignment_progress(ts);
}

/// Program := SourceElement* — statements in order until the input is
/// exhausted.
pub open spec fn spec_program(ts: Seq<TokenModel>) -> Result<Seq<NodeModel>, ParseError>
    decreases ts.len(),
    via spec_program_dec
{
    if ts.len() == 0 {
        Ok(Seq::empty())
    } else {
        match spec_statement(ts) {
            Err(e) => Err(e),
            Ok((n, rest)) => match spec_program(rest) {
                Err(e) => Err(e),
                Ok(body) => Ok(seq![n] + body),
            },
        }
    }
}

#[via_fn]
proof fn spec_program_dec(ts: Seq<TokenModel>) {
    if ts.len() > 0 {
        lemma_spec_statement_progress(ts);
    }
}

/// The program a whole source text parses to.
pub open spec fn spec_parse_source(s: Seq<char>) -> Result<Seq<NodeModel>, ParseError> {
    spec_program(crate::token::spec_tokenize(s))
}

/// Parsing is deterministic: the program a source text parses to is a
/// function of the text alone, so two programs parsed from the same source
/// by two fresh lexer/parser pairs have equal models — which, the model
/// keeping every constructor and field, is structural equality of the trees.
pub proof fn lemma_parse_deterministic(src: Seq<char>, p1: Program, p2: Program)
    requires
        spec_parse_source(src) matches Ok(b) && p1@ == b,
        spec_parse_source(src) matches Ok(b) && p2@ == b,
    ensures
        p1@ == p2@,
{
}

/// How an executable production's result relates to its grammar function: the
/// same error, or the specified node with the specified tokens left over.
pub open spec fn node_result_matches(
    r: Result<Rc<Node>, ParseError>,
    s: ParseOutcome,
    rem: Seq<TokenModel>,
) -> bool {
    match (r, s) {
        (Ok(n), Ok(p)) => n@ == p.0 && rem == p.1,
        (Err(e1), Err(e2)) => e1 == e2,
        _ => false,
    }
}

/// As `node_result_matches`, for the optional initialiser.
pub open spec fn opt_node_result_matches(
    r: Result<Option<Rc<Node>>, ParseError>,
    s: Result<(Option<NodeModel>, Seq<TokenModel>), ParseError>,
    rem: Seq<TokenModel>,
) -> bool {
    match (r, s) {
        (Ok(n), Ok(p)) => elem_model(n) == p.0 && rem == p.1,
        (Err(e1), Err(e2)) => e1 == e2,
        _ => false,
    }
}

/// Statements already parsed, prepended to however the rest of the program
/// parses.
pub open spec fn prepend_body(
    done: Seq<NodeModel>,
    r: Result<Seq<NodeModel>, ParseError>,
) -> Result<Seq<NodeModel>, ParseError> {
    match r {
        Ok(b) => Ok(done + b),
        Err(e) => Err(e),
    }
}

/// The recursive-descent parser: pulls tokens from the lexer through exactly
/// one token of lookahead and builds a `Program`, or reports the first parse
/// error.
pub struct JsParser {
    lexer: JsLexer,
    peeked: Option<Token>,
}

impl JsParser {
    pub closed spec fn wf(&self) -> bool {
        self.lexer.wf()
    }

    /// The tokens the parser has still to consume, lookahead buffer first.
    pub closed spec fn remaining(&self) -> Seq<TokenModel> {
        match self.peeked {
            Some(t) => seq![t@] + self.lexer@,
            None => self.lexer@,
        }
    }

    pub fn new(t: JsLexer) -> (r: JsParser)
        requires
            t.wf(),
        ensures
            r.wf(),
            r.remaining() == t@,
    {
        JsParser { lexer: t, peeked: None }
    }

    /// Look at the next token without consuming it.
    fn peek(&mut self) -> (t: Option<Token>)
        requires
            old(self).wf(),
        ensures
            final(self).wf(),
            final(self).remaining() == old(self).remaining(),
            t is Some <==> old(self).remaining().len() > 0,
            t matches Some(tok) ==> tok@ == old(self).remaining()[0],
    {
        if self.peeked.is_none() {
            let ghost lex0 = self.lexer@;
            let nxt = self.lexer.next();
            self.peeked = nxt;
            proof {
                if lex0.len() > 0 {
                    assert(self.remaining() =~= lex0);
                }
            }
        }
        match &self.peeked {
            Some(tok) => Some(tok.duplicate()),
            None => None,
        }
    }

    /// Consume and return the next token.
    fn advance(&mut self) -> (t: Option<Token>)
        requires
            old(self).wf(),
        ensures
            final(self).wf(),
            t is Some <==> old(self).remaining().len() > 0,
            old(self).remaining().len() == 0 ==> final(self).remaining() == old(self).remaining(),
            old(self).remaining().len() > 0 ==> t.unwrap()@ == old(self).remaining()[0] && final(self).remaining() == old(self).remaining().drop_first(),
    {
        let p = self.peeked.take();
        match p {
            Some(tok) => {
                proof {
                    assert(old(self).remaining().drop_first() =~= self.lexer@);
                }
                Some(tok)
            },
            None => self.lexer.next(),
        }
    }

    /// Consume a semicolon if one is next: an optional statement terminator.
    fn eat_semicolon(&mut self)
        requires
            old(self).wf(),
        ensures
            final(self).wf(),
            final(self).remaining() == (if old(self).remaining().len() > 0 && old(self).remaining()[0] == TokenModel::Punctuator(';') {
                old(self).remaining().drop_first()
            } else {
                old(self).remaining()
            }),
    {
        let is_semi = match self.peek() {
            Some(Token::Punctuator(c)) => c == ';',
            _ => false,
        };
        if is_semi {
            let _ = self.advance();
        }
    }

    fn primary_expression(&mut self) -> (r: Result<Rc<Node>, ParseError>)
        requires
            old(self).wf(),
        ensures
            final(self).wf(),
            node_result_matches(r, spec_primary(old(self).remaining()), final(self).remaining()),
    {
        match self.advance() {
            None => Err(ParseError::UnexpectedEndOfInput),
            Some(t) => match t {
                Token::Identifier(name) => Ok(Node::new_identifier(name).unwrap()),
                Token::StringLiteral(value) => Ok(Node::new_string_literal(value).unwrap()),
                Token::Number(value) => Ok(Node::new_numeric_literal(value).unwrap()),
                _ => Err(ParseError::UnexpectedToken),
            },
        }
    }

    fn member_assignment(&mut self) -> (r: Result<Rc<Node>, ParseError>)
        requires
            old(self).wf(),
        ensures
            final(self).wf(),
            node_result_matches(r, spec_primary(old(self).remaining()), final(self).remaining()),
    {
        self.primary_expression()
    }

    fn left_hand_side_expression(&mut self) -> (r: Result<Rc<Node>, ParseError>)
        requires
            old(self).wf(),
        ensures
            final(self).wf(),
            node_result_matches(r, spec_primary(old(self).remaining()), final(self).remaining()),
    {
        self.member_assignment()
    }

    fn additive_expression(&mut self) -> (r: Result<Rc<Node>, ParseError>)
        requires
            old(self).wf(),
        ensures
            final(self).wf(),
            node_result_matches(r, spec_additive(old(self).remaining()), final(self).remaining()),
        decreases old(self).remaining().len(), 0int,
    {
        let ghost ts = self.remaining();
        let left = match self.left_hand_side_expression() {
            Ok(n) => n,
            Err(e) => {
                return Err(e);
            },
        };
        let t = match self.peek() {
            Some(t) => t,
            None => {
                return Ok(left);
            },
        };
        match t {
            Token::Punctuator(c) => {
                if c == '+' || c == '-' {
                    let _ = self.advance();
                    let right = match self.assignment_expression() {
                        Ok(n) => n,
                        Err(e) => {
                            return Err(e);
                        },
                    };
                    proof {
                        lemma_spec_assignment_le(ts.drop_first().drop_first());
                    }
                    Ok(Node::new_additive_expression(c, Some(left), Some(right)).unwrap())
                } else {
                    Ok(left)
                }
            },
            _ => Ok(left),
        }
    }

    fn assignment_expression(&mut self) -> (r: Result<Rc<Node>, ParseError>)
        requires
            old(self).wf(),
        ensures
            final(self).wf(),
            node_result_matches(
                r,
                spec_assignment(old(self).remaining()),
                final(self).remaining(),
            ),
        decreases old(self).remaining().len(), 1int,
    {
        let ghost ts = self.remaining();
        let expr = match self.additive_expression() {
            Ok(n) => n,
            Err(e) => {
                return Err(e);
            },
        };
        proof {
            lemma_spec_additive_progress(ts);
            lemma_spec_assignment_le(ts);
        }
        let t = match self.peek() {
            Some(t) => t,
            None => {
                return Ok(expr);
            },
        };
        match t {
            Token::Punctuator(c) => {
                if c == '=' {
                    let _ = self.advance();
                    let right = match self.assignment_expression() {
                        Ok(n) => n,
                        Err(e) => {
                            return Err(e);
                        },
                    };
                    proof {
                        lemma_spec_additive_progress(ts);
                    }
                    Ok(Node::new_assignment_expression('=', Some(expr), Some(right)).unwrap())
                } else {
                    Ok(expr)
                }
            },
            _ => Ok(expr),
        }
    }

    fn identifier(&mut self) -> (r: Result<Rc<Node>, ParseError>)
        requires
            old(self).wf(),
        ensures
            final(self).wf(),
            node_result_matches(
                r,
                spec_identifier(old(self).remaining()),
                final(self).remaining(),
            ),
    {
        match self.advance() {
            None => Err(ParseError::UnexpectedEndOfInput),
            Some(t) => match t {
                Token::Identifier(name) => Ok(Node::new_identifier(name).unwrap()),
                _ => Err(ParseError::UnexpectedToken),
            },
        }
    }

    fn initialiser(&mut self) -> (r: Result<Option<Rc<Node>>, ParseError>)
        requires
            old(self).wf(),
        ensures
            final(self).wf(),
            opt_node_result_matches(
                r,
                spec_initialiser(old(self).remaining()),
                final(self).remaining(),
            ),
    {
        let ghost ts = self.remaining();
        let is_eq = match self.peek() {
            Some(Token::Punctuator(c)) => c == '=',
            _ => false,
        };
        if is_eq {
            let _ = self.advance();
            match self.assignment_expression() {
                Ok(n) => {
                    proof {
                        lemma_spec_assignment_le(ts.drop_first());
                    }
                    Ok(Some(n))
                },
                Err(e) => Err(e),
            }
        } else {
            Ok(None)
        }
    }

    fn variable_declaration(&mut self) -> (r: Result<Rc<Node>, ParseError>)
        requires
            old(self).wf(),
        ensures
            final(self).wf(),
            node_result_matches(
                r,
                spec_variable_declaration(old(self).remaining()),
                final(self).remaining(),
            ),
    {
        let id = match self.identifier() {
            Ok(n) => n,
            Err(e) => {
                return Err(e);
            },
        };
        let init = match self.initialiser() {
            Ok(i) => i,
            Err(e) => {
                return Err(e);
            },
        };
        let declarator = Node::new_variable_declarator(Some(id), init).unwrap();
        let mut declarations: Vec<Option<Rc<Node>>> = Vec::new();
        declarations.push(Some(declarator));
        proof {
            assert(declarations@ =~= seq![Some(declarator)]);
            assert(declarations@.drop_first() =~= Seq::<Option<Rc<Node>>>::empty());
            assert(decls_model(Seq::<Option<Rc<Node>>>::empty()) =~= Seq::<
                Option<NodeModel>,
            >::empty());
            assert(decls_model(declarations@) =~= seq![elem_model(Some(declarator))]);
        }
        Ok(Node::new_variable_declaration(declarations).unwrap())
    }

    fn statement(&mut self) -> (r: Result<Rc<Node>, ParseError>)
        requires
            old(self).wf(),
        ensures
            final(self).wf(),
            node_result_matches(r, spec_statement(old(self).remaining()), final(self).remaining()),
    {
        let t = match self.peek() {
            Some(t) => t,
            None => {
                return Err(ParseError::UnexpectedEndOfInput);
            },
        };
        match t {
            Token::Keyword(k) => {
                let kw = "var".to_owned();
                proof {
                    reveal_strlit("var");
                    assert("var"@ =~= keyword_var());
                }
                if k == kw {
                    let _ = self.advance();
                    let node = match self.variable_declaration() {
                        Ok(n) => n,
                        Err(e) => {
                            return Err(e);
                        },
                    };
                    self.eat_semicolon();
                    Ok(node)
                } else {
                    Err(ParseError::UnexpectedToken)
                }
            },
            _ => {
                let expr = match self.assignment_expression() {
                    Ok(n) => n,
                    Err(e) => {
                        return Err(e);
                    },
                };
                let node = Node::new_expression_statement(Some(expr)).unwrap();
                self.eat_semicolon();
                Ok(node)
            },
        }
    }

    fn source_element(&mut self) -> (r: Result<Option<Rc<Node>>, ParseError>)
        requires
            old(self).wf(),
        ensures
            final(self).wf(),
            old(self).remaining().len() == 0 ==> (r matches Ok(n) && n is None && final(self).remaining() == old(self).remaining()),
            old(self).remaining().len() > 0 ==> (match (
                r,
                spec_statement(old(self).remaining()),
            ) {
                (Ok(n), Ok(p)) => n matches Some(node) && node@ == p.0 && final(self).remaining()
                    == p.1,
                (Err(e1), Err(e2)) => e1 == e2,
                _ => false,
            }),
    {
        let has_more = match self.peek() {
            Some(_) => true,
            None => false,
        };
        if !has_more {
            return Ok(None);
        }
        match self.statement() {
            Ok(n) => Ok(Some(n)),
            Err(e) => Err(e),
        }
    }

    /// Parse a whole program: statements in source order until the token
    /// stream is exhausted, or the first parse error.
    pub fn parse_ast(&mut self) -> (r: Result<Program, ParseError>)
        requires
            old(self).wf(),
        ensures
            final(self).wf(),
            match (r, spec_program(old(self).remaining())) {
                (Ok(prog), Ok(body)) => prog@ == body && final(self).remaining().len() == 0,
                (Err(e1), Err(e2)) => e1 == e2,
                _ => false,
            },
    {
        let ghost ts0 = self.remaining();
        let mut body: Vec<Rc<Node>> = Vec::new();
        proof {
            assert(body_model(body@) =~= Seq::<NodeModel>::empty());
            match spec_program(ts0) {
                Ok(b) => {
                    assert(body_model(body@) + b =~= b);
                },
                Err(_) => {},
            }
        }
        loop
            invariant
                self.wf(),
                ts0 == old(self).remaining(),
                spec_program(ts0) == prepend_body(body_model(body@), spec_program(
                    self.remaining(),
                )),
            decreases self.remaining().len(),
        {
            let ghost ts_i = self.remaining();
            let ghost done = body_model(body@);
            let node = match self.source_element() {
                Ok(n) => n,
                Err(e) => {
                    return Err(e);
                },
            };
            match node {
                Some(n) => {
                    proof {
                        lemma_spec_statement_progress(ts_i);
                    }
                    body.push(n);
                    proof {
                        assert(body_model(body@) =~= done + seq![n@]);
                        let rest = self.remaining();
                        match spec_program(rest) {
                            Ok(b) => {
                                assert((done + seq![n@]) + b =~= done + (seq![n@] + b));
                            },
                            Err(_) => {},
                        }
                    }
                },
                None => {
                    let mut program = Program::new();
                    program.set_body(body);
                    proof {
                        assert(body_model(body@) + Seq::<NodeModel>::empty() =~= body_model(
                            body@,
                        ));
                    }
                    return Ok(program);
                },
            }
        }
    }
}

} // verus!
