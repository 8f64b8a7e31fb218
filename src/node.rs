use vstd::prelude::*;

verus! {

broadcast use vstd::std_specs::vec::group_vec_axioms, vstd::seq::group_seq_axioms;

/// An instruction of the parsed program, possibly standing for a run of
/// several source characters.
#[derive(Debug, PartialEq, Eq)]
pub enum Node {
    /// A run of consecutive non-instruction characters.
    Comment(String),
    /// The net cell adjustment of a run of `+` and `-`: positive for net
    /// increments, negative for net decrements.
    Delta(i128),
    /// The net pointer displacement of a run of `>` and `<`: positive is
    /// rightward.
    Move(i128),
    /// Read one input byte into the current cell.
    Read,
    /// Write the current cell as one raw byte.
    Write,
    /// A loop body, from one matched `[` `]` pair.
    Block(Vec<Node>),
}

/// The mathematical model of a node.
pub ghost enum Instr {
    Comment(Seq<char>),
    Delta(int),
    Move(int),
    Read,
    Write,
    Loop(Seq<Instr>),
}

impl Node {
    pub open spec fn view(&self) -> Instr
        decreases self,
    {
        match self {
            Node::Comment(s) => Instr::Comment(s@),
            Node::Delta(n) => Instr::Delta(*n as int),
            Node::Move(n) => Instr::Move(*n as int),
            Node::Read => Instr::Read,
            Node::Write => Instr::Write,
            Node::Block(v) => Instr::Loop(view_seq(v@)),
        }
    }
}

/// The models of a sequence of nodes.
pub open spec fn view_seq(s: Seq<Node>) -> Seq<Instr>
    decreases s,
{
    if s.len() == 0 {
        Seq::empty()
    } else {
        view_seq(s.drop_last()).push(s.last().view())
    }
}

pub proof fn lemma_view_seq_len(s: Seq<Node>)
    ensures
        view_seq(s).len() == s.len(),
    decreases s.len(),
{
    if s.len() > 0 {
        lemma_view_seq_len(s.drop_last());
    }
}

pub proof fn lemma_view_seq_index(s: Seq<Node>, i: int)
    requires
        0 <= i < s.len(),
    ensures
        view_seq(s)[i] == s[i].view(),
    decreases s.len(),
{
    lemma_view_seq_len(s);
    if i < s.len() - 1 {
        lemma_view_seq_index(s.drop_last(), i);
    }
}

} // verus!
