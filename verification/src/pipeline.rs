use vstd::prelude::*;

use crate::codec::{
    encodable, json_bytes, json_doc, json_encode, json_parse_one, json_parse_stream, json_tokens,
    lossy_text, toml_bytes, toml_doc, toml_encode, toml_parse, utf8_lossy, yaml_bytes,
    yaml_encode, yaml_parse_docs, yaml_src,
};
use crate::merge::{can_resolve, lemma_resolve_wf, resolve, resolve_merge};
use crate::opts::{Input, Output};
use crate::value::{lemma_map_view, lemma_seq_view, views_of, wf, Val, Node};
use crate::Error;

verus! {

broadcast use vstd::std_specs::vec::group_vec_axioms, vstd::seq::group_seq_axioms;

/// The collapse rule that turns an ambiguous count of values into one
/// document: none default to the empty mapping, one stands alone, several
/// become a sequence in their given order.
pub open spec fn collapse_model(docs: Seq<Val>) -> Val {
    if docs.len() == 0 {
        Val::Dict(Seq::empty())
    } else if docs.len() == 1 {
        docs[0]
    } else {
        Val::Arr(docs)
    }
}

/// No documents collapse to the empty mapping; one collapses to itself
/// alone; two or more collapse to the sequence of them, in order.
pub proof fn lemma_collapse_cases(docs: Seq<Val>)
    ensures
        docs.len() == 0 ==> collapse_model(docs) == Val::Dict(Seq::<(Seq<char>, Val)>::empty()),
        docs.len() == 1 ==> collapse_model(docs) == docs[0],
        docs.len() >= 2 ==> collapse_model(docs) == Val::Arr(docs),
{
}

/// Collapses a document stream into the one document the collapse rule
/// names.
pub fn collapse(docs: Vec<Node>) -> (r: Node)
    ensures
        r@ == collapse_model(views_of(docs@)),
{
    if docs.len() == 0 {
        let empty: Vec<(String, Node)> = Vec::new();
        let r = Node::Mapping(empty);
        proof {
            lemma_map_view(r->Mapping_0);
            assert(crate::value::entry_views(Seq::<(String, Node)>::empty()) =~= Seq::<
                (Seq<char>, Val),
            >::empty());
        }
        r
    } else if docs.len() == 1 {
        let ghost docs0 = docs@;
        let mut docs = docs;
        let d = docs.pop().unwrap();
        proof {
            assert(d == docs0[0]);
        }
        d
    } else {
        let r = Node::Sequence(docs);
        proof {
            lemma_seq_view(r->Sequence_0);
        }
        r
    }
}

/// The array-unwrap rule of the value-tree source format: a top-level
/// sequence is the stream of its elements, anything else a stream of one.
pub open spec fn docs_of_tree(v: Val) -> Seq<Val> {
    match v {
        Val::Arr(items) => items,
        _ => seq![v],
    }
}

/// A stream unwrapped from a well-formed tree holds well-formed documents.
pub proof fn lemma_docs_of_tree_wf(v: Val)
    requires
        wf(v),
    ensures
        forall|i: int| 0 <= i < docs_of_tree(v).len() ==> wf(#[trigger] docs_of_tree(v)[i]),
{
}

/// Splits one decoded tree into its document stream by the array-unwrap
/// rule.
pub fn unwrap_docs(v: Node) -> (docs: Vec<Node>)
    ensures
        views_of(docs@) == docs_of_tree(v@),
{
    let ghost v0 = v;
    match v {
        Node::Sequence(items) => {
            proof {
                lemma_seq_view(items);
            }
            items
        },
        other => {
            let mut docs: Vec<Node> = Vec::new();
            docs.push(other);
            proof {
                assert(views_of(docs@) =~= seq![v0@]);
            }
            docs
        },
    }
}

/// An ASCII whitespace byte.
pub open spec fn ascii_ws(b: u8) -> bool {
    b == 32 || b == 9 || b == 10 || b == 13
}

/// The bytes with trailing ASCII whitespace removed.
pub open spec fn trim_end_model(s: Seq<u8>) -> Seq<u8>
    decreases s.len(),
{
    if s.len() == 0 {
        s
    } else if ascii_ws(s.last()) {
        trim_end_model(s.drop_last())
    } else {
        s
    }
}

/// Removes trailing ASCII whitespace.
pub fn trim_end_bytes(b: Vec<u8>) -> (r: Vec<u8>)
    ensures
        r@ == trim_end_model(b@),
{
    let ghost b0 = b@;
    let mut b = b;
    let mut done = false;
    while !done
        invariant
            trim_end_model(b@) == trim_end_model(b0),
            done ==> b@.len() == 0 || !ascii_ws(b@.last()),
        decreases b@.len() + (if done { 0int } else { 1int }),
    {
        if b.len() == 0 {
            done = true;
        } else {
            let c = b[b.len() - 1];
            if c == 32 || c == 9 || c == 10 || c == 13 {
                b.pop();
            } else {
                done = true;
            }
        }
    }
    proof {
        assert(trim_end_model(b@) == b@);
    }
    b
}

/// The processor-native rendering: the output bytes read as text, trailing
/// whitespace removed, with no structural validation.
pub fn render_raw(stdout: Vec<u8>) -> (r: String)
    ensures
        r@ == lossy_text(trim_end_model(stdout@)),
{
    let t = trim_end_bytes(stdout);
    utf8_lossy(t.as_slice())
}

/// Whether re-encoding the processor's output in the target format goes
/// through: its tokens must parse, and their collapse must be encodable —
/// for the config-table target, of a shape that format can carry.
pub open spec fn render_ok(fmt: Output, out: Seq<u8>) -> bool {
    match fmt {
        Output::Jq => true,
        Output::Yaml => json_tokens(out) is Some && encodable(
            collapse_model(json_tokens(out)->0),
        ),
        Output::Toml => json_tokens(out) is Some && encodable(
            collapse_model(json_tokens(out)->0),
        ) && toml_bytes(collapse_model(json_tokens(out)->0)) is Some,
    }
}

/// The text the run emits for the processor output `out` under each target
/// format; meaningful when `render_ok` holds.
pub open spec fn render_model(fmt: Output, out: Seq<u8>) -> Seq<char> {
    match fmt {
        Output::Jq => lossy_text(trim_end_model(out)),
        Output::Yaml => lossy_text(
            trim_end_model(yaml_bytes(collapse_model(json_tokens(out)->0))),
        ),
        Output::Toml => lossy_text(
            trim_end_model(toml_bytes(collapse_model(json_tokens(out)->0))->0),
        ),
    }
}

/// Re-encodes the query processor's output bytes in the target format: the
/// native format passes the text through; any other format re-parses the
/// byte stream as concatenated value-tree tokens, collapses them into one
/// document, and encodes that document.
pub fn render_output(fmt: Output, stdout: Vec<u8>) -> (r: Result<String, Error>)
    ensures
        r is Ok <==> render_ok(fmt, stdout@),
        r matches Ok(s) ==> s@ == render_model(fmt, stdout@),
        r matches Err(e) ==> e is Encode,
{
    match fmt {
        Output::Jq => Ok(render_raw(stdout)),
        Output::Yaml => {
            let docs = match json_parse_stream(stdout.as_slice()) {
                Ok(d) => d,
                Err(e) => {
                    return Err(e);
                },
            };
            let doc = collapse(docs);
            match yaml_encode(&doc) {
                Ok(b) => Ok(render_raw(b)),
                Err(e) => Err(e),
            }
        },
        Output::Toml => {
            let docs = match json_parse_stream(stdout.as_slice()) {
                Ok(d) => d,
                Err(e) => {
                    return Err(e);
                },
            };
            let doc = collapse(docs);
            match toml_encode(&doc) {
                Ok(b) => Ok(render_raw(b)),
                Err(e) => Err(e),
            }
        },
    }
}

/// The document stream a byte source decodes to in each source format: an
/// empty source (no content at all) is the empty stream in every format;
/// otherwise the multi-document format yields its sections, merge directives
/// resolved; the value-tree format yields one tree, unwrapped by the array
/// rule; the config-table format yields its one table.
pub open spec fn decode_ok(fmt: Input, bytes: Seq<u8>) -> bool {
    bytes.len() == 0 || match fmt {
        Input::Yaml => yaml_src(bytes) is Some && forall|i: int|
            0 <= i < yaml_src(bytes)->0.len() ==> can_resolve(#[trigger] yaml_src(bytes)->0[i]),
        Input::Json => json_doc(bytes) is Some,
        Input::Toml => toml_doc(bytes) is Some,
    }
}

/// The decoded stream itself; meaningful when `decode_ok` holds.
pub open spec fn decode_model(fmt: Input, bytes: Seq<u8>) -> Seq<Val> {
    if bytes.len() == 0 {
        Seq::empty()
    } else {
        match fmt {
            Input::Yaml => yaml_src(bytes)->0.map_values(|d: Val| resolve(d)),
            Input::Json => docs_of_tree(json_doc(bytes)->0),
            Input::Toml => seq![toml_doc(bytes)->0],
        }
    }
}

/// Decodes a byte source into its document stream, with full document
/// boundaries kept: the decoder for split mode.
pub fn decode_docs(fmt: Input, bytes: &[u8]) -> (r: Result<Vec<Node>, Error>)
    ensures
        r is Ok <==> decode_ok(fmt, bytes@),
        r matches Ok(docs) ==> views_of(docs@) == decode_model(fmt, bytes@),
        r matches Ok(docs) ==> forall|i: int|
            0 <= i < docs@.len() ==> wf((#[trigger] docs@[i]).deep()),
        r matches Ok(docs) ==> (fmt == Input::Toml ==> forall|i: int|
            0 <= i < docs@.len() ==> (#[trigger] docs@[i]).deep() is Dict),
        bytes@.len() == 0 ==> r is Ok,
        r matches Ok(docs) ==> (bytes@.len() == 0 ==> docs@.len() == 0),
        r matches Err(e) ==> e is Parse,
{
    if bytes.len() == 0 {
        // an empty source (no content at all) decodes to a stream of length
        // zero in every format
        let out: Vec<Node> = Vec::new();
        proof {
            assert(views_of(out@) =~= Seq::<Val>::empty());
        }
        return Ok(out);
    }
    match fmt {
        Input::Yaml => {
            let raw = match yaml_parse_docs(bytes) {
                Ok(d) => d,
                Err(e) => {
                    return Err(e);
                },
            };
            let ghost raw0 = raw@;
            let ghost src = views_of(raw@);
            let mut rest = raw;
            let mut out: Vec<Node> = Vec::new();
            #[verifier::loop_isolation(false)]
            while rest.len() > 0
                invariant
                    Some(src) == yaml_src(bytes@),
                    src == views_of(raw0),
                    src.len() == raw0.len(),
                    out@.len() + rest@.len() == raw0.len(),
                    rest@ == raw0.subrange(out@.len() as int, raw0.len() as int),
                    forall|i: int| 0 <= i < out@.len() ==> (#[trigger] out@[i]).deep() == resolve(
                        src[i],
                    ),
                    forall|i: int| 0 <= i < out@.len() ==> can_resolve(#[trigger] src[i]),
                    forall|i: int| 0 <= i < out@.len() ==> wf((#[trigger] out@[i]).deep()),
                decreases rest@.len(),
            {
                let ghost k = out@.len() as int;
                let d = rest.remove(0);
                proof {
                    assert(d == raw0[k]);
                }
                match resolve_merge(d) {
                    Ok(rv) => {
                        proof {
                            assert(wf(src[k]));
                            lemma_resolve_wf(src[k]);
                        }
                        out.push(rv);
                    },
                    Err(e) => {
                        proof {
                            assert(Some(src) == yaml_src(bytes@));
                            assert(0 <= k < src.len());
                            assert(!can_resolve(yaml_src(bytes@)->0[k]));
                            assert(!decode_ok(Input::Yaml, bytes@));
                        }
                        return Err(e);
                    },
                }
            }
            proof {
                assert(views_of(out@) =~= src.map_values(|d: Val| resolve(d)));
            }
            Ok(out)
        },
        Input::Json => {
            let tree = match json_parse_one(bytes) {
                Ok(t) => t,
                Err(e) => {
                    return Err(e);
                },
            };
            let docs = unwrap_docs(tree);
            proof {
                lemma_docs_of_tree_wf(tree@);
                assert forall|i: int| 0 <= i < docs@.len() implies wf(
                    (#[trigger] docs@[i]).deep(),
                ) by {
                    assert(views_of(docs@)[i] == docs@[i].deep());
                }
            }
            Ok(docs)
        },
        Input::Toml => {
            let doc = match toml_parse(bytes) {
                Ok(d) => d,
                Err(e) => {
                    return Err(e);
                },
            };
            let ghost d0 = doc@;
            let mut out: Vec<Node> = Vec::new();
            out.push(doc);
            proof {
                assert(views_of(out@) =~= seq![d0]);
            }
            Ok(out)
        },
    }
}

/// An empty source decodes to a stream of length zero in every source
/// format; the single-pass collapse of that stream is the empty mapping,
/// which is encodable, so building the payload never fails on empty input.
pub proof fn lemma_empty_input(fmt: Input, bytes: Seq<u8>)
    requires
        bytes.len() == 0,
    ensures
        decode_ok(fmt, bytes),
        decode_model(fmt, bytes) == Seq::<Val>::empty(),
        collapse_model(decode_model(fmt, bytes)) == Val::Dict(Seq::<(Seq<char>, Val)>::empty()),
        payload_ok(fmt, bytes),
        payload_model(fmt, bytes) == json_bytes(Val::Dict(Seq::<(Seq<char>, Val)>::empty())),
{
}

/// Zero result tokens always re-encode in the block-style target: they
/// collapse to the empty mapping, which is encodable.
pub proof fn lemma_empty_output_renders(out: Seq<u8>)
    requires
        json_tokens(out) == Some(Seq::<Val>::empty()),
    ensures
        render_ok(Output::Yaml, out),
        render_model(Output::Yaml, out) == lossy_text(
            trim_end_model(yaml_bytes(Val::Dict(Seq::<(Seq<char>, Val)>::empty()))),
        ),
{
}

/// A source holding one logical document decodes to a stream of length one:
/// always so for the config-table format, which has no document-separator
/// concept, and for the value-tree format whenever the top-level value is
/// not a sequence (a top-level sequence is unwrapped instead).
pub proof fn lemma_single_document_stream(fmt: Input, bytes: Seq<u8>)
    requires
        decode_ok(fmt, bytes),
        bytes.len() > 0,
    ensures
        fmt == Input::Toml ==> decode_model(fmt, bytes).len() == 1,
        fmt == Input::Json && !(json_doc(bytes)->0 is Arr) ==> decode_model(fmt, bytes).len()
            == 1,
{
}

/// Whether the single-pass payload for the processor can be built: the
/// source must decode, and the collapse of its stream must be encodable.
pub open spec fn payload_ok(fmt: Input, bytes: Seq<u8>) -> bool {
    decode_ok(fmt, bytes) && encodable(collapse_model(decode_model(fmt, bytes)))
}

/// The single-pass payload itself; meaningful when `payload_ok` holds.
pub open spec fn payload_model(fmt: Input, bytes: Seq<u8>) -> Seq<u8> {
    json_bytes(collapse_model(decode_model(fmt, bytes)))
}

/// Decodes a byte source and flattens its stream into the one value-tree
/// payload the single-pass mode feeds to the query processor, the collapse
/// rule applied on the input side.
pub fn input_payload(fmt: Input, bytes: &[u8]) -> (r: Result<Vec<u8>, Error>)
    ensures
        r is Ok <==> payload_ok(fmt, bytes@),
        r matches Ok(p) ==> p@ == payload_model(fmt, bytes@),
        r matches Err(e) ==> e is Parse || e is Encode,
{
    let docs = match decode_docs(fmt, bytes) {
        Ok(d) => d,
        Err(e) => {
            return Err(e);
        },
    };
    let doc = collapse(docs);
    json_encode(&doc)
}

/// The value-tree payload for one document of the stream, as split mode
/// feeds each document to the processor on its own.
pub fn doc_payload(doc: &Node) -> (r: Result<Vec<u8>, Error>)
    ensures
        r is Ok <==> encodable(doc@),
        r matches Ok(p) ==> p@ == json_bytes(doc@),
        r matches Err(e) ==> e is Encode,
{
    json_encode(doc)
}

} // verus!
