//! The main document part: an ordered sequence of block-level content
//! nodes. A paragraph's character data is escaped on write and unescaped on
//! parse, so any text round-trips exactly.

use vstd::prelude::*;
use crate::error::DocxError;
use crate::xmltext::{lemma_lit_at_concat, lemma_lit_at_none, lemma_text_rt, lit_at, lit_match,
    parse_text, push_text, text_elem, text_of};

verus! {

/// A paragraph, modeled by its text.
pub struct Para {
    pub text: String,
}

pub struct ParaView {
    pub text: Seq<char>,
}

impl View for Para {
    type V = ParaView;

    open spec fn view(&self) -> ParaView {
        ParaView { text: self.text@ }
    }
}

impl Para {
    pub fn new(text: &str) -> (r: Para)
        ensures
            r@.text == text@,
    {
        Para { text: String::from_str(text) }
    }
}

/// A block-level content node of the body.
pub enum BodyContent {
    Para(Para),
}

pub enum BodyContentView {
    Para(ParaView),
}

impl View for BodyContent {
    type V = BodyContentView;

    open spec fn view(&self) -> BodyContentView {
        match self {
            BodyContent::Para(p) => BodyContentView::Para(p@),
        }
    }
}

/// The document body.
pub struct Body {
    pub content: Vec<BodyContent>,
}

pub struct BodyView {
    pub content: Seq<BodyContentView>,
}

impl View for Body {
    type V = BodyView;

    open spec fn view(&self) -> BodyView {
        BodyView { content: self.content@.map_values(|c: BodyContent| c@) }
    }
}

/// The main document part.
pub struct Document {
    pub body: Body,
}

pub struct DocumentView {
    pub body: BodyView,
}

impl View for Document {
    type V = DocumentView;

    open spec fn view(&self) -> DocumentView {
        DocumentView { body: self.body@ }
    }
}

impl Default for Document {
    /// A document with an empty content sequence.
    fn default() -> (r: Self)
        ensures
            r@.body.content.len() == 0,
    {
        let r = Document { body: Body { content: Vec::new() } };
        proof {
            assert(r@.body.content =~= Seq::<BodyContentView>::empty());
        }
        r
    }
}

pub open spec fn doc_open() -> Seq<char> {
    "<w:document xmlns:w=\"http://schemas.openxmlformats.org/wordprocessingml/2006/main\"><w:body>"@
}

pub open spec fn doc_close() -> Seq<char> {
    "</w:body></w:document>"@
}

pub open spec fn para_open() -> Seq<char> {
    "<w:p><w:r><w:t>"@
}

pub open spec fn para_close() -> Seq<char> {
    "</w:t></w:r></w:p>"@
}

pub proof fn lemma_doc_literals()
    ensures
        para_open().len() == 15,
        para_open()[1] == 'w',
        para_close().len() == 18,
        para_close()[0] == '<',
        doc_close().len() == 22,
        doc_close()[1] == '/',
{
    reveal_strlit("<w:p><w:r><w:t>");
    reveal_strlit("</w:t></w:r></w:p>");
    reveal_strlit("</w:body></w:document>");
}

pub open spec fn node_xml(c: BodyContentView) -> Seq<char> {
    match c {
        BodyContentView::Para(p) => text_of(para_open(), p.text, para_close()),
    }
}

pub open spec fn nodes_xml(cs: Seq<BodyContentView>) -> Seq<char>
    decreases cs.len(),
{
    if cs.len() == 0 {
        Seq::<char>::empty()
    } else {
        node_xml(cs[0]) + nodes_xml(cs.skip(1))
    }
}

/// The serialized document part.
pub open spec fn doc_xml(v: DocumentView) -> Seq<char> {
    doc_open() + nodes_xml(v.body.content) + doc_close()
}

pub proof fn lemma_nodes_concat(a: Seq<BodyContentView>, b: Seq<BodyContentView>)
    ensures
        nodes_xml(a + b) == nodes_xml(a) + nodes_xml(b),
    decreases a.len(),
{
    if a.len() == 0 {
        assert(a + b =~= b);
        assert(nodes_xml(a) + nodes_xml(b) =~= nodes_xml(b));
    } else {
        assert((a + b).skip(1) =~= a.skip(1) + b);
        lemma_nodes_concat(a.skip(1), b);
        assert((a + b)[0] == a[0]);
        assert(node_xml(a[0]) + (nodes_xml(a.skip(1)) + nodes_xml(b)) =~= (node_xml(a[0])
            + nodes_xml(a.skip(1))) + nodes_xml(b));
    }
}

pub open spec fn parse_node(s: Seq<char>, i: int) -> Option<(BodyContentView, int)> {
    match parse_text(s, i, para_open(), para_close()) {
        Some((t, e)) => Some((BodyContentView::Para(ParaView { text: t }), e)),
        None => None,
    }
}

pub open spec fn parse_nodes(s: Seq<char>, i: int) -> Option<(Seq<BodyContentView>, int)>
    decreases s.len() - i,
{
    if i < 0 || i > s.len() {
        None
    } else {
        match lit_at(s, i, doc_close()) {
            Some(e) => Some((Seq::<BodyContentView>::empty(), e)),
            None => match parse_node(s, i) {
                Some((c, j)) => if i < j <= s.len() {
                    match parse_nodes(s, j) {
                        Some((rest, e)) => Some((seq![c] + rest, e)),
                        None => None,
                    }
                } else {
                    None
                },
                None => None,
            },
        }
    }
}

pub open spec fn parse_doc(s: Seq<char>) -> Option<DocumentView> {
    match lit_at(s, 0, doc_open()) {
        Some(j) => match parse_nodes(s, j) {
            Some((cs, e)) => if e == s.len() {
                Some(DocumentView { body: BodyView { content: cs } })
            } else {
                None
            },
            None => None,
        },
        None => None,
    }
}

pub proof fn lemma_node_rt(c: BodyContentView, pre: Seq<char>, rest: Seq<char>)
    ensures
        parse_node(pre + node_xml(c) + rest, pre.len() as int) == Some(
            (c, (pre.len() + node_xml(c).len()) as int),
        ),
{
    lemma_doc_literals();
    match c {
        BodyContentView::Para(p) => {
            lemma_text_rt(pre, para_open(), p.text, para_close(), rest);
        },
    }
}

#[verifier::rlimit(100)]
#[verifier::spinoff_prover]
pub proof fn lemma_nodes_rt(cs: Seq<BodyContentView>, pre: Seq<char>, rest: Seq<char>)
    ensures
        parse_nodes(pre + (nodes_xml(cs) + doc_close()) + rest, pre.len() as int) == Some(
            (cs, (pre.len() + nodes_xml(cs).len() + doc_close().len()) as int),
        ),
    decreases cs.len(),
{
    lemma_doc_literals();
    let s = pre + (nodes_xml(cs) + doc_close()) + rest;
    if cs.len() == 0 {
        assert(s =~= pre + doc_close() + rest);
        lemma_lit_at_concat(pre, doc_close(), rest);
        assert(Seq::<BodyContentView>::empty() =~= cs);
    } else {
        let c0 = cs[0];
        let tail = cs.skip(1);
        let x0 = node_xml(c0);
        assert(nodes_xml(cs) == x0 + nodes_xml(tail));
        assert(s[pre.len() as int + 1] == x0[1]) by {
            assert(s[pre.len() as int + 1] == (nodes_xml(cs) + doc_close())[1]);
        }
        assert(x0[1] == para_open()[1]) by {
            match c0 {
                BodyContentView::Para(p) => {
                    assert(x0[1] == text_of(para_open(), p.text, para_close())[1]);
                },
            }
        }
        lemma_lit_at_none(s, pre.len() as int, doc_close(), 1);
        assert(s =~= pre + x0 + (nodes_xml(tail) + doc_close() + rest));
        lemma_node_rt(c0, pre, nodes_xml(tail) + doc_close() + rest);
        let j = pre.len() + x0.len();
        assert(parse_node(s, pre.len() as int) == Some((c0, j as int)));
        assert(s =~= (pre + x0) + (nodes_xml(tail) + doc_close()) + rest);
        lemma_nodes_rt(tail, pre + x0, rest);
        assert(seq![c0] + tail =~= cs);
    }
}

/// Parsing recovers a serialized document part exactly.
pub proof fn lemma_doc_rt(v: DocumentView)
    ensures
        parse_doc(doc_xml(v)) == Some(v),
{
    let s = doc_xml(v);
    let body = nodes_xml(v.body.content) + doc_close();
    assert(Seq::<char>::empty() + doc_open() + body =~= s);
    lemma_lit_at_concat(Seq::<char>::empty(), doc_open(), body);
    lemma_nodes_rt(v.body.content, doc_open(), Seq::<char>::empty());
    assert(doc_open() + (nodes_xml(v.body.content) + doc_close()) + Seq::<char>::empty() =~= s);
}

fn parse_node_x(s: &str, i: usize) -> (r: Option<(BodyContent, usize)>)
    ensures
        match r {
            Some(p) => parse_node(s@, i as int) == Some((p.0@, p.1 as int)),
            None => parse_node(s@, i as int) is None,
        },
{
    match text_elem(s, i, "<w:p><w:r><w:t>", "</w:t></w:r></w:p>") {
        None => None,
        Some((t, e)) => Some((BodyContent::Para(Para { text: t }), e)),
    }
}

fn parse_nodes_x(s: &str, i: usize) -> (r: Option<(Vec<BodyContent>, usize)>)
    ensures
        match r {
            Some(p) => parse_nodes(s@, i as int) == Some(
                (p.0@.map_values(|x: BodyContent| x@), p.1 as int),
            ),
            None => parse_nodes(s@, i as int) is None,
        },
    decreases s@.len() - i,
{
    let n = s.unicode_len();
    if i > n {
        return None;
    }
    match lit_match(s, i, "</w:body></w:document>") {
        Some(e) => {
            let v: Vec<BodyContent> = Vec::new();
            proof {
                assert(v@.map_values(|x: BodyContent| x@) =~= Seq::<BodyContentView>::empty());
            }
            Some((v, e))
        },
        None => match parse_node_x(s, i) {
            None => None,
            Some((c0, j)) => {
                if !(i < j && j <= n) {
                    return None;
                }
                match parse_nodes_x(s, j) {
                    None => None,
                    Some((mut v, e)) => {
                        let ghost tail = v@;
                        v.insert(0, c0);
                        proof {
                            assert(v@.map_values(|x: BodyContent| x@) =~= seq![c0@]
                                + tail.map_values(|x: BodyContent| x@));
                        }
                        Some((v, e))
                    },
                }
            },
        },
    }
}

impl Document {
    pub fn to_xml(&self) -> (r: String)
        ensures
            r@ == doc_xml(self@),
    {
        let mut out = String::new();
        out.append(
            "<w:document xmlns:w=\"http://schemas.openxmlformats.org/wordprocessingml/2006/main\"><w:body>",
        );
        let ghost all = self@.body.content;
        let mut i: usize = 0;
        while i < self.body.content.len()
            invariant
                i <= self.body.content.len(),
                all == self@.body.content,
                all.len() == self.body.content.len(),
                out@ == doc_open() + nodes_xml(all.take(i as int)),
            decreases self.body.content.len() - i,
        {
            match &self.body.content[i] {
                BodyContent::Para(p) => {
                    push_text(&mut out, "<w:p><w:r><w:t>", p.text.as_str(), "</w:t></w:r></w:p>");
                },
            }
            proof {
                lemma_nodes_concat(all.take(i as int), seq![all[i as int]]);
                assert(all.take(i + 1) =~= all.take(i as int) + seq![all[i as int]]);
                assert(seq![all[i as int]].skip(1) =~= Seq::<BodyContentView>::empty());
                assert(nodes_xml(seq![all[i as int]]) == node_xml(all[i as int]) + nodes_xml(
                    Seq::<BodyContentView>::empty(),
                ));
                assert(node_xml(all[i as int]) + Seq::<char>::empty() =~= node_xml(all[i as int]));
                assert(out@ =~= doc_open() + nodes_xml(all.take(i + 1)));
            }
            i += 1;
        }
        out.append("</w:body></w:document>");
        proof {
            assert(all.take(all.len() as int) =~= all);
            assert(out@ =~= doc_xml(self@));
        }
        out
    }

    pub fn from_str(s: &str) -> (r: Result<Document, DocxError>)
        ensures
            match r {
                Ok(d) => parse_doc(s@) == Some(d@),
                Err(e) => parse_doc(s@) is None && e == DocxError::MalformedXml,
            },
    {
        let n = s.unicode_len();
        let j = match lit_match(
            s,
            0,
            "<w:document xmlns:w=\"http://schemas.openxmlformats.org/wordprocessingml/2006/main\"><w:body>",
        ) {
            None => {
                return Err(DocxError::MalformedXml);
            },
            Some(j) => j,
        };
        match parse_nodes_x(s, j) {
            None => Err(DocxError::MalformedXml),
            Some((cs, e)) => {
                if e != n {
                    return Err(DocxError::MalformedXml);
                }
                Ok(Document { body: Body { content: cs } })
            },
        }
    }
}

} // verus!
