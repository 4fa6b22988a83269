//! The style definitions part: an ordered list of styles, each with an id
//! and a display name.

use vstd::prelude::*;
use crate::error::DocxError;
use crate::xmltext::{lemma_lit_at_concat, lemma_lit_at_none, lemma_quoted_rt, lit_at, lit_match,
    parse_quoted, push_attr, quoted, quoted_of};

verus! {

/// One style definition.
pub struct Style {
    pub style_id: String,
    pub name: String,
}

pub struct StyleView {
    pub style_id: Seq<char>,
    pub name: Seq<char>,
}

impl View for Style {
    type V = StyleView;

    open spec fn view(&self) -> StyleView {
        StyleView { style_id: self.style_id@, name: self.name@ }
    }
}

impl Style {
    pub fn new(style_id: &str, name: &str) -> (r: Style)
        ensures
            r@.style_id == style_id@,
            r@.name == name@,
    {
        Style { style_id: String::from_str(style_id), name: String::from_str(name) }
    }
}

impl Default for Style {
    /// A style with empty id and name, to be filled in by the caller.
    fn default() -> (r: Self)
        ensures
            r@.style_id.len() == 0,
            r@.name.len() == 0,
    {
        Style { style_id: String::new(), name: String::new() }
    }
}

/// A latent style: a known style that a consumer may materialize on use.
/// Part of the style schema; the package core carries it as data.
#[derive(Clone, Debug)]
pub struct LatentStyle {
    pub name: Option<String>,
    pub semi_hidden: Option<usize>,
    pub priority: Option<usize>,
    pub unhiden_when_used: Option<usize>,
    pub q_format: Option<usize>,
}

impl Default for LatentStyle {
    fn default() -> (r: Self)
        ensures
            r.name is None,
            r.semi_hidden is None,
            r.priority is None,
            r.unhiden_when_used is None,
            r.q_format is None,
    {
        LatentStyle {
            name: None,
            semi_hidden: None,
            priority: None,
            unhiden_when_used: None,
            q_format: None,
        }
    }
}

/// The style definitions part.
pub struct Styles {
    pub styles: Vec<Style>,
}

pub struct StylesView {
    pub styles: Seq<StyleView>,
}

impl View for Styles {
    type V = StylesView;

    open spec fn view(&self) -> StylesView {
        StylesView { styles: self.styles@.map_values(|s: Style| s@) }
    }
}

impl Default for Styles {
    /// An empty style list.
    fn default() -> (r: Self)
        ensures
            r@.styles.len() == 0,
    {
        let r = Styles { styles: Vec::new() };
        proof {
            assert(r@.styles =~= Seq::<StyleView>::empty());
        }
        r
    }
}

pub open spec fn styles_open() -> Seq<char> {
    "<w:styles xmlns:w=\"http://schemas.openxmlformats.org/wordprocessingml/2006/main\">"@
}

pub open spec fn styles_close() -> Seq<char> {
    "</w:styles>"@
}

pub open spec fn style_id_lit() -> Seq<char> {
    "<w:style w:styleId=\""@
}

pub open spec fn style_name_lit() -> Seq<char> {
    " w:name=\""@
}

pub open spec fn style_end_lit() -> Seq<char> {
    "/>"@
}

pub proof fn lemma_styles_literals()
    ensures
        style_id_lit().len() == 20,
        style_id_lit()[1] == 'w',
        styles_close().len() == 11,
        styles_close()[1] == '/',
{
    reveal_strlit("<w:style w:styleId=\"");
    reveal_strlit("</w:styles>");
}

pub open spec fn style_xml(v: StyleView) -> Seq<char> {
    quoted_of(style_id_lit(), v.style_id) + quoted_of(style_name_lit(), v.name) + style_end_lit()
}

pub open spec fn styles_items_xml(vs: Seq<StyleView>) -> Seq<char>
    decreases vs.len(),
{
    if vs.len() == 0 {
        Seq::<char>::empty()
    } else {
        style_xml(vs[0]) + styles_items_xml(vs.skip(1))
    }
}

/// The serialized style definitions part.
pub open spec fn styles_xml(v: StylesView) -> Seq<char> {
    styles_open() + styles_items_xml(v.styles) + styles_close()
}

pub proof fn lemma_styles_items_concat(a: Seq<StyleView>, b: Seq<StyleView>)
    ensures
        styles_items_xml(a + b) == styles_items_xml(a) + styles_items_xml(b),
    decreases a.len(),
{
    if a.len() == 0 {
        assert(a + b =~= b);
        assert(styles_items_xml(a) + styles_items_xml(b) =~= styles_items_xml(b));
    } else {
        assert((a + b).skip(1) =~= a.skip(1) + b);
        lemma_styles_items_concat(a.skip(1), b);
        assert((a + b)[0] == a[0]);
        assert(style_xml(a[0]) + (styles_items_xml(a.skip(1)) + styles_items_xml(b)) =~= (style_xml(
            a[0],
        ) + styles_items_xml(a.skip(1))) + styles_items_xml(b));
    }
}

pub open spec fn parse_style_item(s: Seq<char>, i: int) -> Option<(StyleView, int)> {
    match parse_quoted(s, i, style_id_lit()) {
        Some((id, j)) => match parse_quoted(s, j, style_name_lit()) {
            Some((name, j2)) => match lit_at(s, j2, style_end_lit()) {
                Some(e) => Some((StyleView { style_id: id, name: name }, e)),
                None => None,
            },
            None => None,
        },
        None => None,
    }
}

pub open spec fn parse_style_items(s: Seq<char>, i: int) -> Option<(Seq<StyleView>, int)>
    decreases s.len() - i,
{
    if i < 0 || i > s.len() {
        None
    } else {
        match lit_at(s, i, styles_close()) {
            Some(e) => Some((Seq::<StyleView>::empty(), e)),
            None => match parse_style_item(s, i) {
                Some((v, j)) => if i < j <= s.len() {
                    match parse_style_items(s, j) {
                        Some((rest, e)) => Some((seq![v] + rest, e)),
                        None => None,
                    }
                } else {
                    None
                },
                None => None,
            },
        }
    }
}

pub open spec fn parse_styles(s: Seq<char>) -> Option<StylesView> {
    match lit_at(s, 0, styles_open()) {
        Some(j) => match parse_style_items(s, j) {
            Some((vs, e)) => if e == s.len() {
                Some(StylesView { styles: vs })
            } else {
                None
            },
            None => None,
        },
        None => None,
    }
}

pub proof fn lemma_style_item_rt(v: StyleView, pre: Seq<char>, rest: Seq<char>)
    ensures
        parse_style_item(pre + style_xml(v) + rest, pre.len() as int) == Some(
            (v, (pre.len() + style_xml(v).len()) as int),
        ),
{
    let s = pre + style_xml(v) + rest;
    let p1 = pre + quoted_of(style_id_lit(), v.style_id);
    let p2 = p1 + quoted_of(style_name_lit(), v.name);
    assert(s =~= pre + quoted_of(style_id_lit(), v.style_id) + (quoted_of(
        style_name_lit(),
        v.name,
    ) + style_end_lit() + rest));
    lemma_quoted_rt(pre, style_id_lit(), v.style_id, quoted_of(style_name_lit(), v.name)
        + style_end_lit() + rest);
    assert(s =~= p1 + quoted_of(style_name_lit(), v.name) + (style_end_lit() + rest));
    lemma_quoted_rt(p1, style_name_lit(), v.name, style_end_lit() + rest);
    assert(s =~= p2 + style_end_lit() + rest);
    lemma_lit_at_concat(p2, style_end_lit(), rest);
}

#[verifier::rlimit(100)]
#[verifier::spinoff_prover]
pub proof fn lemma_style_items_rt(vs: Seq<StyleView>, pre: Seq<char>, rest: Seq<char>)
    ensures
        parse_style_items(pre + (styles_items_xml(vs) + styles_close()) + rest, pre.len() as int)
            == Some((vs, (pre.len() + styles_items_xml(vs).len() + styles_close().len()) as int)),
    decreases vs.len(),
{
    lemma_styles_literals();
    let s = pre + (styles_items_xml(vs) + styles_close()) + rest;
    if vs.len() == 0 {
        assert(s =~= pre + styles_close() + rest);
        lemma_lit_at_concat(pre, styles_close(), rest);
        assert(Seq::<StyleView>::empty() =~= vs);
    } else {
        let v0 = vs[0];
        let tail = vs.skip(1);
        let x0 = style_xml(v0);
        assert(styles_items_xml(vs) == x0 + styles_items_xml(tail));
        assert(s[pre.len() as int + 1] == x0[1]) by {
            assert(s[pre.len() as int + 1] == (styles_items_xml(vs) + styles_close())[1]);
        }
        assert(x0[1] == style_id_lit()[1]) by {
            assert(x0[1] == quoted_of(style_id_lit(), v0.style_id)[1]);
        }
        lemma_lit_at_none(s, pre.len() as int, styles_close(), 1);
        assert(s =~= pre + x0 + (styles_items_xml(tail) + styles_close() + rest));
        lemma_style_item_rt(v0, pre, styles_items_xml(tail) + styles_close() + rest);
        let j = pre.len() + x0.len();
        assert(parse_style_item(s, pre.len() as int) == Some((v0, j as int)));
        assert(s =~= (pre + x0) + (styles_items_xml(tail) + styles_close()) + rest);
        lemma_style_items_rt(tail, pre + x0, rest);
        assert(seq![v0] + tail =~= vs);
    }
}

/// Parsing recovers a serialized style definitions part exactly.
pub proof fn lemma_styles_rt(v: StylesView)
    ensures
        parse_styles(styles_xml(v)) == Some(v),
{
    let s = styles_xml(v);
    let body = styles_items_xml(v.styles) + styles_close();
    assert(Seq::<char>::empty() + styles_open() + body =~= s);
    lemma_lit_at_concat(Seq::<char>::empty(), styles_open(), body);
    lemma_style_items_rt(v.styles, styles_open(), Seq::<char>::empty());
    assert(styles_open() + (styles_items_xml(v.styles) + styles_close()) + Seq::<char>::empty()
        =~= s);
}

fn parse_style_item_x(s: &str, i: usize) -> (r: Option<(Style, usize)>)
    ensures
        match r {
            Some(p) => parse_style_item(s@, i as int) == Some((p.0@, p.1 as int)),
            None => parse_style_item(s@, i as int) is None,
        },
{
    match quoted(s, i, "<w:style w:styleId=\"") {
        None => None,
        Some((id, j)) => match quoted(s, j, " w:name=\"") {
            None => None,
            Some((name, j2)) => match lit_match(s, j2, "/>") {
                None => None,
                Some(e) => Some((Style { style_id: id, name: name }, e)),
            },
        },
    }
}

fn parse_style_items_x(s: &str, i: usize) -> (r: Option<(Vec<Style>, usize)>)
    ensures
        match r {
            Some(p) => parse_style_items(s@, i as int) == Some(
                (p.0@.map_values(|x: Style| x@), p.1 as int),
            ),
            None => parse_style_items(s@, i as int) is None,
        },
    decreases s@.len() - i,
{
    let n = s.unicode_len();
    if i > n {
        return None;
    }
    match lit_match(s, i, "</w:styles>") {
        Some(e) => {
            let v: Vec<Style> = Vec::new();
            proof {
                assert(v@.map_values(|x: Style| x@) =~= Seq::<StyleView>::empty());
            }
            Some((v, e))
        },
        None => match parse_style_item_x(s, i) {
            None => None,
            Some((v0, j)) => {
                if !(i < j && j <= n) {
                    return None;
                }
                match parse_style_items_x(s, j) {
                    None => None,
                    Some((mut v, e)) => {
                        let ghost tail = v@;
                        v.insert(0, v0);
                        proof {
                            assert(v@.map_values(|x: Style| x@) =~= seq![v0@] + tail.map_values(
                                |x: Style| x@,
                            ));
                        }
                        Some((v, e))
                    },
                }
            },
        },
    }
}

impl Styles {
    /// Appends a style.
    pub fn insert_style(&mut self, style: Style)
        ensures
            final(self)@.styles == old(self)@.styles.push(style@),
    {
        let ghost before = self@.styles;
        self.styles.push(style);
        proof {
            assert(self@.styles =~= before.push(style@));
        }
    }

    /// Appends a default style and returns its index, for the caller to
    /// fill in.
    pub fn create_style(&mut self) -> (idx: usize)
        ensures
            final(self)@.styles.len() == old(self)@.styles.len() + 1,
            final(self)@.styles[idx as int].style_id.len() == 0,
            final(self)@.styles[idx as int].name.len() == 0,
            final(self)@.styles.take(idx as int) == old(self)@.styles,
            idx == old(self)@.styles.len(),
    {
        let idx = self.styles.len();
        let ghost before = self@.styles;
        self.styles.push(Style::default());
        proof {
            assert(self@.styles =~= before.push(self@.styles.last()));
            assert(self@.styles.take(idx as int) =~= before);
        }
        idx
    }

    pub fn to_xml(&self) -> (r: String)
        ensures
            r@ == styles_xml(self@),
    {
        let mut out = String::new();
        out.append(
            "<w:styles xmlns:w=\"http://schemas.openxmlformats.org/wordprocessingml/2006/main\">",
        );
        let ghost all = self@.styles;
        let mut i: usize = 0;
        while i < self.styles.len()
            invariant
                i <= self.styles.len(),
                all == self@.styles,
                all.len() == self.styles.len(),
                out@ == styles_open() + styles_items_xml(all.take(i as int)),
            decreases self.styles.len() - i,
        {
            let st = &self.styles[i];
            push_attr(&mut out, "<w:style w:styleId=\"", st.style_id.as_str());
            push_attr(&mut out, " w:name=\"", st.name.as_str());
            out.append("/>");
            proof {
                lemma_styles_items_concat(all.take(i as int), seq![all[i as int]]);
                assert(all.take(i + 1) =~= all.take(i as int) + seq![all[i as int]]);
                assert(seq![all[i as int]].skip(1) =~= Seq::<StyleView>::empty());
                assert(styles_items_xml(seq![all[i as int]]) == style_xml(all[i as int])
                    + styles_items_xml(Seq::<StyleView>::empty()));
                assert(style_xml(all[i as int]) + Seq::<char>::empty() =~= style_xml(
                    all[i as int],
                ));
                assert(out@ =~= styles_open() + styles_items_xml(all.take(i + 1)));
            }
            i += 1;
        }
        out.append("</w:styles>");
        proof {
            assert(all.take(all.len() as int) =~= all);
            assert(out@ =~= styles_xml(self@));
        }
        out
    }

    pub fn from_str(s: &str) -> (r: Result<Styles, DocxError>)
        ensures
            match r {
                Ok(v) => parse_styles(s@) == Some(v@),
                Err(e) => parse_styles(s@) is None && e == DocxError::MalformedXml,
            },
    {
        let n = s.unicode_len();
        let j = match lit_match(
            s,
            0,
            "<w:styles xmlns:w=\"http://schemas.openxmlformats.org/wordprocessingml/2006/main\">",
        ) {
            None => {
                return Err(DocxError::MalformedXml);
            },
            Some(j) => j,
        };
        match parse_style_items_x(s, j) {
            None => Err(DocxError::MalformedXml),
            Some((vs, e)) => {
                if e != n {
                    return Err(DocxError::MalformedXml);
                }
                Ok(Styles { styles: vs })
            },
        }
    }
}

} // verus!
