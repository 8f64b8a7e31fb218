use vstd::prelude::*;
use crate::node::{Node, Instr, view_seq, lemma_view_seq_len};
use crate::token::{Token, TokenKind};

verus! {

/// Why a token sequence does not form a program: its brackets do not balance.
#[derive(Debug, Clone, Copy, PartialEq, Eq)]
pub enum ParseError {
    /// A `]` with no open `[` before it.
    UnmatchedClose,
    /// A `[` still open at the end of the input.
    UnclosedOpen,
}

/// The parser's state after a prefix of the tokens: the span being built and,
/// below it, the enclosing spans whose loops are still open (innermost last).
pub ghost struct Spans {
    pub cur: Seq<Instr>,
    pub stack: Seq<Seq<Instr>>,
}

/// Appends a `Delta(d)`, merging it into the span's last node if that is a
/// `Delta`.
pub open spec fn add_delta(cur: Seq<Instr>, d: int) -> Seq<Instr> {
    if cur.len() > 0 && cur.last() is Delta {
        cur.drop_last().push(Instr::Delta(cur.last()->Delta_0 + d))
    } else {
        cur.push(Instr::Delta(d))
    }
}

/// Appends a `Move(d)`, merging it into the span's last node if that is a
/// `Move`.
pub open spec fn add_move(cur: Seq<Instr>, d: int) -> Seq<Instr> {
    if cur.len() > 0 && cur.last() is Move {
        cur.drop_last().push(Instr::Move(cur.last()->Move_0 + d))
    } else {
        cur.push(Instr::Move(d))
    }
}

/// Appends the character `c` as comment text, extending the span's last node
/// if that is a `Comment`.
pub open spec fn add_comment_char(cur: Seq<Instr>, c: char) -> Seq<Instr> {
    if cur.len() > 0 && cur.last() is Comment {
        cur.drop_last().push(Instr::Comment(cur.last()->Comment_0.push(c)))
    } else {
        cur.push(Instr::Comment(seq![c]))
    }
}

/// The effect of one token on the parser's state.
pub open spec fn parse_step(st: Spans, k: TokenKind) -> Result<Spans, ParseError> {
    match k {
        TokenKind::Comment(c) => Ok(Spans { cur: add_comment_char(st.cur, c), ..st }),
        TokenKind::DecrementByte => Ok(Spans { cur: add_delta(st.cur, -1), ..st }),
        TokenKind::IncrementByte => Ok(Spans { cur: add_delta(st.cur, 1), ..st }),
        TokenKind::MoveRight => Ok(Spans { cur: add_move(st.cur, 1), ..st }),
        TokenKind::MoveLeft => Ok(Spans { cur: add_move(st.cur, -1), ..st }),
        TokenKind::Input => Ok(Spans { cur: st.cur.push(Instr::Read), ..st }),
        TokenKind::Output => Ok(Spans { cur: st.cur.push(Instr::Write), ..st }),
        TokenKind::JumpRight => Ok(Spans { cur: Seq::empty(), stack: st.stack.push(st.cur) }),
        TokenKind::JumpLeft => if st.stack.len() == 0 {
            Err(ParseError::UnmatchedClose)
        } else {
            Ok(
                Spans {
                    cur: st.stack.last().push(Instr::Loop(st.cur)),
                    stack: st.stack.drop_last(),
                },
            )
        },
    }
}

/// The parser's state after all of `ts`, or the first error met.
pub open spec fn parse_prefix(ts: Seq<Token>) -> Result<Spans, ParseError>
    decreases ts.len(),
{
    if ts.len() == 0 {
        Ok(Spans { cur: Seq::empty(), stack: Seq::empty() })
    } else {
        match parse_prefix(ts.drop_last()) {
            Ok(st) => parse_step(st, ts.last().kind),
            Err(e) => Err(e),
        }
    }
}

/// The program that a token sequence parses to: the root span, once every
/// loop has been closed.
pub open spec fn parse_spec(ts: Seq<Token>) -> Result<Seq<Instr>, ParseError> {
    match parse_prefix(ts) {
        Ok(st) => if st.stack.len() == 0 {
            Ok(st.cur)
        } else {
            Err(ParseError::UnclosedOpen)
        },
        Err(e) => Err(e),
    }
}

/// `r` is what parsing `ts` gives: the nodes whose models form the program,
/// or the error.
pub open spec fn parses_to(ts: Seq<Token>, r: Result<Vec<Node>, ParseError>) -> bool {
    match parse_spec(ts) {
        Ok(p) => r is Ok && view_seq(r->Ok_0@) == p,
        Err(e) => r == Err::<Vec<Node>, ParseError>(e),
    }
}

/// How a token changes the loop nesting depth.
pub open spec fn depth_change(k: TokenKind) -> int {
    match k {
        TokenKind::JumpRight => 1,
        TokenKind::JumpLeft => -1,
        _ => 0,
    }
}

/// The number of `[` minus the number of `]` in `ts`.
pub open spec fn depth(ts: Seq<Token>) -> int
    decreases ts.len(),
{
    if ts.len() == 0 {
        0
    } else {
        depth(ts.drop_last()) + depth_change(ts.last().kind)
    }
}

/// No prefix of `ts` closes more loops than it opens.
pub open spec fn never_negative(ts: Seq<Token>) -> bool {
    forall|i: int| 0 <= i <= ts.len() ==> depth(#[trigger] ts.take(i)) >= 0
}

/// The brackets of `ts` balance and nest properly.
pub open spec fn balanced(ts: Seq<Token>) -> bool {
    never_negative(ts) && depth(ts) == 0
}

proof fn lemma_prefix_depth(ts: Seq<Token>)
    ensures
        parse_prefix(ts) is Ok <==> never_negative(ts),
        parse_prefix(ts) is Ok ==> parse_prefix(ts)->Ok_0.stack.len() == depth(ts),
        parse_prefix(ts) is Err ==> parse_prefix(ts) == Err::<Spans, ParseError>(
            ParseError::UnmatchedClose,
        ),
    decreases ts.len(),
{
    assert(ts.take(0) =~= Seq::<Token>::empty());
    if ts.len() > 0 {
        let pre = ts.drop_last();
        lemma_prefix_depth(pre);
        assert(ts.take(ts.len() as int) == ts);
        assert forall|i: int| 0 <= i <= pre.len() implies #[trigger] ts.take(i) == pre.take(i) by {}
        if never_negative(pre) && depth(ts) >= 0 {
            assert forall|i: int| 0 <= i <= ts.len() implies depth(#[trigger] ts.take(i)) >= 0 by {
                if i < ts.len() {
                    assert(ts.take(i) == pre.take(i));
                }
            }
        }
        if never_negative(ts) {
            assert forall|i: int| 0 <= i <= pre.len() implies depth(#[trigger] pre.take(i))
                >= 0 by {
                assert(ts.take(i) == pre.take(i));
            }
        }
    }
}

/// Parsing succeeds exactly when the brackets balance and nest properly. It
/// fails with `UnmatchedClose` exactly when some prefix closes more loops than
/// it opens, and with `UnclosedOpen` exactly when none does but a loop is left
/// open at the end.
pub proof fn parse_succeeds_iff_balanced(ts: Seq<Token>)
    ensures
        parse_spec(ts) is Ok <==> balanced(ts),
        parse_spec(ts) == Err::<Seq<Instr>, ParseError>(ParseError::UnmatchedClose) <==> !never_negative(ts),
        parse_spec(ts) == Err::<Seq<Instr>, ParseError>(ParseError::UnclosedOpen) <==> (never_negative(ts) && depth(ts) != 0),
{
    lemma_prefix_depth(ts);
}

/// Parsing is deterministic: any two results that parsing the same tokens
/// may give are the same tree, or the same error.
pub proof fn reparse_identical(
    ts: Seq<Token>,
    r1: Result<Vec<Node>, ParseError>,
    r2: Result<Vec<Node>, ParseError>,
)
    requires
        parses_to(ts, r1),
        parses_to(ts, r2),
    ensures
        r1 is Ok <==> r2 is Ok,
        r1 is Ok ==> view_seq(r1->Ok_0@) == view_seq(r2->Ok_0@),
        r1 is Err ==> r1 == r2,
{
}

/// The models of the open spans held by the parser.
pub open spec fn view_stack(s: Seq<Vec<Node>>) -> Seq<Seq<Instr>> {
    Seq::new(s.len(), |j: int| view_seq(s[j]@))
}

/// The magnitude of a mergeable last node is at most `b`.
pub open spec fn last_bounded(cur: Seq<Instr>, b: int) -> bool {
    cur.len() > 0 ==> match cur.last() {
        Instr::Delta(a) => -b <= a <= b,
        Instr::Move(a) => -b <= a <= b,
        _ => true,
    }
}

proof fn lemma_view_seq_push(s: Seq<Node>, n: Node)
    ensures
        view_seq(s.push(n)) == view_seq(s).push(n.view()),
{
    assert(s.push(n).drop_last() == s);
}

proof fn lemma_prefix_err(ts: Seq<Token>, i: int)
    requires
        0 <= i <= ts.len(),
        parse_prefix(ts.take(i)) is Err,
    ensures
        parse_prefix(ts) == parse_prefix(ts.take(i)),
    decreases ts.len(),
{
    if i < ts.len() {
        assert(ts.drop_last().take(i) == ts.take(i));
        lemma_prefix_err(ts.drop_last(), i);
    } else {
        assert(ts.take(i) == ts);
    }
}

/// Relies on String::push: the character is appended at the end.
#[verifier::external_body]
fn push_char(s: &mut String, c: char)
    ensures
        final(s)@ == old(s)@.push(c),
{
    s.push(c)
}

fn push_delta(cur: &mut Vec<Node>, d: i128, Ghost(b): Ghost<int>)
    requires
        d == 1 || d == -1,
        0 <= b < 0x1_0000_0000_0000_0000,
        last_bounded(view_seq(old(cur)@), b),
    ensures
        view_seq(final(cur)@) == add_delta(view_seq(old(cur)@), d as int),
        last_bounded(view_seq(final(cur)@), b + 1),
{
    let ghost s0 = cur@;
    proof {
        lemma_view_seq_len(s0);
    }
    match cur.pop() {
        Some(Node::Delta(a)) => {
            proof {
                lemma_view_seq_push(cur@, Node::Delta(a));
                assert(cur@.push(Node::Delta(a)) == s0);
            }
            let na = a + d;
            cur.push(Node::Delta(na));
            proof {
                lemma_view_seq_push(s0.drop_last(), Node::Delta(na));
            }
        },
        Some(n) => {
            proof {
                lemma_view_seq_push(cur@, n);
                assert(cur@.push(n) == s0);
            }
            cur.push(n);
            proof {
                lemma_view_seq_push(s0, Node::Delta(d));
            }
            cur.push(Node::Delta(d));
        },
        None => {
            proof {
                lemma_view_seq_push(s0, Node::Delta(d));
            }
            cur.push(Node::Delta(d));
        },
    }
}

fn push_move(cur: &mut Vec<Node>, d: i128, Ghost(b): Ghost<int>)
    requires
        d == 1 || d == -1,
        0 <= b < 0x1_0000_0000_0000_0000,
        last_bounded(view_seq(old(cur)@), b),
    ensures
        view_seq(final(cur)@) == add_move(view_seq(old(cur)@), d as int),
        last_bounded(view_seq(final(cur)@), b + 1),
{
    let ghost s0 = cur@;
    proof {
        lemma_view_seq_len(s0);
    }
    match cur.pop() {
        Some(Node::Move(a)) => {
            proof {
                lemma_view_seq_push(cur@, Node::Move(a));
                assert(cur@.push(Node::Move(a)) == s0);
            }
            let na = a + d;
            cur.push(Node::Move(na));
            proof {
                lemma_view_seq_push(s0.drop_last(), Node::Move(na));
            }
        },
        Some(n) => {
            proof {
                lemma_view_seq_push(cur@, n);
                assert(cur@.push(n) == s0);
            }
            cur.push(n);
            proof {
                lemma_view_seq_push(s0, Node::Move(d));
            }
            cur.push(Node::Move(d));
        },
        None => {
            proof {
                lemma_view_seq_push(s0, Node::Move(d));
            }
            cur.push(Node::Move(d));
        },
    }
}

fn push_comment(cur: &mut Vec<Node>, c: char, Ghost(b): Ghost<int>)
    requires
        last_bounded(view_seq(old(cur)@), b),
    ensures
        view_seq(final(cur)@) == add_comment_char(view_seq(old(cur)@), c),
        last_bounded(view_seq(final(cur)@), b),
{
    let ghost s0 = cur@;
    proof {
        lemma_view_seq_len(s0);
    }
    match cur.pop() {
        Some(Node::Comment(mut text)) => {
            proof {
                lemma_view_seq_push(cur@, Node::Comment(text));
                assert(cur@.push(Node::Comment(text)) == s0);
            }
            push_char(&mut text, c);
            proof {
                lemma_view_seq_push(s0.drop_last(), Node::Comment(text));
            }
            cur.push(Node::Comment(text));
        },
        Some(n) => {
            proof {
                lemma_view_seq_push(cur@, n);
                assert(cur@.push(n) == s0);
            }
            cur.push(n);
            let mut text = String::new();
            push_char(&mut text, c);
            proof {
                assert(text@ == seq![c]);
                lemma_view_seq_push(s0, Node::Comment(text));
            }
            cur.push(Node::Comment(text));
        },
        None => {
            let mut text = String::new();
            push_char(&mut text, c);
            proof {
                assert(text@ == seq![c]);
                lemma_view_seq_push(s0, Node::Comment(text));
            }
            cur.push(Node::Comment(text));
        },
    }
}

/// Builds the instruction tree of a token sequence: runs of `+`/`-`, of
/// `>`/`<` and of comment characters each become one node, `,` and `.` one
/// node each, and every matched `[` `]` pair one `Block` of the nodes between.
/// Fails on a `]` with no open `[`, or a `[` left open at the end.
pub fn parse(tokens: Vec<Token>) -> (r: Result<Vec<Node>, ParseError>)
    ensures
        parses_to(tokens@, r),
{
    let mut cur: Vec<Node> = Vec::new();
    let mut stack: Vec<Vec<Node>> = Vec::new();
    let mut i: usize = 0;
    proof {
        assert(tokens@.take(0) == Seq::<Token>::empty());
        assert(view_stack(stack@) == Seq::<Seq<Instr>>::empty());
    }
    while i < tokens.len()
        invariant
            i <= tokens.len(),
            parse_prefix(tokens@.take(i as int)) == Ok::<Spans, ParseError>(
                Spans { cur: view_seq(cur@), stack: view_stack(stack@) },
            ),
            last_bounded(view_seq(cur@), i as int),
        decreases tokens.len() - i,
    {
        let kind = tokens[i].kind;
        let ghost st = Spans { cur: view_seq(cur@), stack: view_stack(stack@) };
        proof {
            assert(tokens@.take(i + 1).drop_last() == tokens@.take(i as int));
        }
        match kind {
            TokenKind::Comment(c) => push_comment(&mut cur, c, Ghost(i as int)),
            TokenKind::DecrementByte => push_delta(&mut cur, -1, Ghost(i as int)),
            TokenKind::IncrementByte => push_delta(&mut cur, 1, Ghost(i as int)),
            TokenKind::MoveRight => push_move(&mut cur, 1, Ghost(i as int)),
            TokenKind::MoveLeft => push_move(&mut cur, -1, Ghost(i as int)),
            TokenKind::Input => {
                proof {
                    lemma_view_seq_push(cur@, Node::Read);
                }
                cur.push(Node::Read);
            },
            TokenKind::Output => {
                proof {
                    lemma_view_seq_push(cur@, Node::Write);
                }
                cur.push(Node::Write);
            },
            TokenKind::JumpRight => {
                stack.push(cur);
                cur = Vec::new();
                proof {
                    assert(view_stack(stack@) == st.stack.push(st.cur));
                    assert(view_seq(cur@) == Seq::<Instr>::empty());
                }
            },
            TokenKind::JumpLeft => {
                match stack.pop() {
                    None => {
                        proof {
                            lemma_prefix_err(tokens@, i + 1);
                        }
                        return Err(ParseError::UnmatchedClose);
                    },
                    Some(mut parent) => {
                        proof {
                            assert(view_stack(stack@) == st.stack.drop_last());
                            assert(view_seq(parent@) == st.stack.last());
                            lemma_view_seq_push(parent@, Node::Block(cur));
                        }
                        parent.push(Node::Block(cur));
                        cur = parent;
                    },
                }
            },
        }
        i = i + 1;
    }
    proof {
        assert(tokens@.take(i as int) == tokens@);
    }
    if stack.len() > 0 {
        Err(ParseError::UnclosedOpen)
    } else {
        Ok(cur)
    }
}

} // verus!
