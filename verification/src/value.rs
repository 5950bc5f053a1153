use vstd::prelude::*;

verus! {

broadcast use vstd::std_specs::vec::group_vec_axioms, vstd::seq::group_seq_axioms;

/// Mathematical model of a canonical document value: the tree of
/// null / bool / number / string / ordered sequence / ordered-key mapping
/// that contracts in this crate speak about.
pub enum Val {
    Null,
    Bool(bool),
    Num(Seq<char>),
    Str(Seq<char>),
    Arr(Seq<Val>),
    Dict(Seq<(Seq<char>, Val)>),
}

/// Canonical value: the one tree type that every decoder produces and every
/// encoder consumes.  Numbers are carried in their textual form so that no
/// source format's native numeric type leaks through.
#[derive(Debug)]
pub enum Node {
    Null,
    Bool(bool),
    Number(String),
    Text(String),
    Sequence(Vec<Node>),
    Mapping(Vec<(String, Node)>),
}

impl Node {
    pub open spec fn deep(self) -> Val
        decreases self,
    {
        match self {
            Node::Null => Val::Null,
            Node::Bool(b) => Val::Bool(b),
            Node::Number(s) => Val::Num(s@),
            Node::Text(s) => Val::Str(s@),
            Node::Sequence(items) => Val::Arr(
                Seq::new(
                    items@.len(),
                    |i: int|
                        if 0 <= i < items@.len() {
                            items@[i].deep()
                        } else {
                            Val::Null
                        },
                ),
            ),
            Node::Mapping(entries) => Val::Dict(
                Seq::new(
                    entries@.len(),
                    |i: int|
                        if 0 <= i < entries@.len() {
                            (entries@[i].0@, entries@[i].1.deep())
                        } else {
                            (Seq::empty(), Val::Null)
                        },
                ),
            ),
        }
    }
}

impl View for Node {
    type V = Val;

    open spec fn view(&self) -> Val {
        self.deep()
    }
}

/// The models of a decoded document stream.
pub open spec fn views_of(docs: Seq<Node>) -> Seq<Val> {
    docs.map_values(|d: Node| d.deep())
}

/// The models of a mapping's entries.
pub open spec fn entry_views(es: Seq<(String, Node)>) -> Seq<(Seq<char>, Val)> {
    es.map_values(|e: (String, Node)| (e.0@, e.1.deep()))
}

pub proof fn lemma_seq_view(items: Vec<Node>)
    ensures
        Node::Sequence(items)@ == Val::Arr(views_of(items@)),
{
    let s = match Node::Sequence(items)@ {
        Val::Arr(s) => s,
        _ => Seq::empty(),
    };
    assert(s =~= views_of(items@));
}

pub proof fn lemma_map_view(entries: Vec<(String, Node)>)
    ensures
        Node::Mapping(entries)@ == Val::Dict(entry_views(entries@)),
{
    let s = match Node::Mapping(entries)@ {
        Val::Dict(s) => s,
        _ => Seq::empty(),
    };
    assert(s =~= entry_views(entries@));
}

/// Whether a key occurs among a mapping's entries.
pub open spec fn has_key(es: Seq<(Seq<char>, Val)>, k: Seq<char>) -> bool {
    exists|i: int| 0 <= i < es.len() && es[i].0 == k
}

/// Well-formed canonical value: every mapping's keys are unique.
pub open spec fn wf(v: Val) -> bool
    decreases v,
{
    match v {
        Val::Arr(items) => forall|i: int| 0 <= i < items.len() ==> wf(#[trigger] items[i]),
        Val::Dict(es) => {
            &&& forall|i: int, j: int| 0 <= i < j < es.len() ==> es[i].0 != es[j].0
            &&& forall|i: int| 0 <= i < es.len() ==> wf(#[trigger] es[i].1)
        },
        _ => true,
    }
}

} // verus!
