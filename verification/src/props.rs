//! The property parts: app (extended) properties, core properties, and the
//! font table. Their detailed schemas are collaborators' business; the
//! package core needs each of them only as a value that serializes to XML
//! and parses back.

use vstd::prelude::*;
use crate::error::DocxError;
use crate::xmltext::{lemma_lit_at_concat, lemma_lit_at_none, lemma_quoted_rt, lemma_text_rt,
    lit_at, lit_match, parse_quoted, parse_text, push_attr, push_text, quoted, quoted_of,
    text_elem, text_of};

verus! {

/// App (extended) properties; modeled by the application name.
pub struct App {
    pub application: String,
}

pub struct AppView {
    pub application: Seq<char>,
}

impl View for App {
    type V = AppView;

    open spec fn view(&self) -> AppView {
        AppView { application: self.application@ }
    }
}

pub open spec fn app_open() -> Seq<char> {
    "<Properties xmlns=\"http://schemas.openxmlformats.org/officeDocument/2006/extended-properties\"><Application>"@
}

pub open spec fn app_close() -> Seq<char> {
    "</Application></Properties>"@
}

pub open spec fn app_xml(v: AppView) -> Seq<char> {
    text_of(app_open(), v.application, app_close())
}

pub open spec fn parse_app(s: Seq<char>) -> Option<AppView> {
    match parse_text(s, 0, app_open(), app_close()) {
        Some((t, e)) => if e == s.len() {
            Some(AppView { application: t })
        } else {
            None
        },
        None => None,
    }
}

pub proof fn lemma_app_rt(v: AppView)
    ensures
        parse_app(app_xml(v)) == Some(v),
{
    reveal_strlit("</Application></Properties>");
    let s = app_xml(v);
    assert(Seq::<char>::empty() + text_of(app_open(), v.application, app_close())
        + Seq::<char>::empty() =~= s);
    lemma_text_rt(
        Seq::<char>::empty(),
        app_open(),
        v.application,
        app_close(),
        Seq::<char>::empty(),
    );
}

impl App {
    pub fn new(application: &str) -> (r: App)
        ensures
            r@.application == application@,
    {
        App { application: String::from_str(application) }
    }

    pub fn to_xml(&self) -> (r: String)
        ensures
            r@ == app_xml(self@),
    {
        let mut out = String::new();
        push_text(
            &mut out,
            "<Properties xmlns=\"http://schemas.openxmlformats.org/officeDocument/2006/extended-properties\"><Application>",
            self.application.as_str(),
            "</Application></Properties>",
        );
        proof {
            assert(out@ =~= app_xml(self@));
        }
        out
    }

    pub fn from_str(s: &str) -> (r: Result<App, DocxError>)
        ensures
            match r {
                Ok(a) => parse_app(s@) == Some(a@),
                Err(e) => parse_app(s@) is None && e == DocxError::MalformedXml,
            },
    {
        let n = s.unicode_len();
        match text_elem(
            s,
            0,
            "<Properties xmlns=\"http://schemas.openxmlformats.org/officeDocument/2006/extended-properties\"><Application>",
            "</Application></Properties>",
        ) {
            Some((t, e)) => {
                if e != n {
                    return Err(DocxError::MalformedXml);
                }
                Ok(App { application: t })
            },
            None => Err(DocxError::MalformedXml),
        }
    }
}

/// Core properties; modeled by the title.
pub struct Core {
    pub title: String,
}

pub struct CoreView {
    pub title: Seq<char>,
}

impl View for Core {
    type V = CoreView;

    open spec fn view(&self) -> CoreView {
        CoreView { title: self.title@ }
    }
}

pub open spec fn core_open() -> Seq<char> {
    "<cp:coreProperties xmlns:cp=\"http://schemas.openxmlformats.org/package/2006/metadata/core-properties\"><cp:title>"@
}

pub open spec fn core_close() -> Seq<char> {
    "</cp:title></cp:coreProperties>"@
}

pub open spec fn core_xml(v: CoreView) -> Seq<char> {
    text_of(core_open(), v.title, core_close())
}

pub open spec fn parse_core(s: Seq<char>) -> Option<CoreView> {
    match parse_text(s, 0, core_open(), core_close()) {
        Some((t, e)) => if e == s.len() {
            Some(CoreView { title: t })
        } else {
            None
        },
        None => None,
    }
}

pub proof fn lemma_core_rt(v: CoreView)
    ensures
        parse_core(core_xml(v)) == Some(v),
{
    reveal_strlit("</cp:title></cp:coreProperties>");
    let s = core_xml(v);
    assert(Seq::<char>::empty() + text_of(core_open(), v.title, core_close())
        + Seq::<char>::empty() =~= s);
    lemma_text_rt(Seq::<char>::empty(), core_open(), v.title, core_close(), Seq::<char>::empty());
}

impl Core {
    pub fn new(title: &str) -> (r: Core)
        ensures
            r@.title == title@,
    {
        Core { title: String::from_str(title) }
    }

    pub fn to_xml(&self) -> (r: String)
        ensures
            r@ == core_xml(self@),
    {
        let mut out = String::new();
        push_text(
            &mut out,
            "<cp:coreProperties xmlns:cp=\"http://schemas.openxmlformats.org/package/2006/metadata/core-properties\"><cp:title>",
            self.title.as_str(),
            "</cp:title></cp:coreProperties>",
        );
        proof {
            assert(out@ =~= core_xml(self@));
        }
        out
    }

    pub fn from_str(s: &str) -> (r: Result<Core, DocxError>)
        ensures
            match r {
                Ok(c) => parse_core(s@) == Some(c@),
                Err(e) => parse_core(s@) is None && e == DocxError::MalformedXml,
            },
    {
        let n = s.unicode_len();
        match text_elem(
            s,
            0,
            "<cp:coreProperties xmlns:cp=\"http://schemas.openxmlformats.org/package/2006/metadata/core-properties\"><cp:title>",
            "</cp:title></cp:coreProperties>",
        ) {
            Some((t, e)) => {
                if e != n {
                    return Err(DocxError::MalformedXml);
                }
                Ok(Core { title: t })
            },
            None => Err(DocxError::MalformedXml),
        }
    }
}

/// The font table part: the declared font names, in order.
pub struct FontTable {
    pub fonts: Vec<String>,
}

pub struct FontTableView {
    pub fonts: Seq<Seq<char>>,
}

impl View for FontTable {
    type V = FontTableView;

    open spec fn view(&self) -> FontTableView {
        FontTableView { fonts: self.fonts@.map_values(|f: String| f@) }
    }
}

pub open spec fn fonts_open() -> Seq<char> {
    "<w:fonts xmlns:w=\"http://schemas.openxmlformats.org/wordprocessingml/2006/main\">"@
}

pub open spec fn fonts_close() -> Seq<char> {
    "</w:fonts>"@
}

pub open spec fn font_lit() -> Seq<char> {
    "<w:font w:name=\""@
}

pub open spec fn font_end_lit() -> Seq<char> {
    "/>"@
}

pub proof fn lemma_fonts_literals()
    ensures
        font_lit().len() == 16,
        font_lit()[1] == 'w',
        fonts_close().len() == 10,
        fonts_close()[1] == '/',
{
    reveal_strlit("<w:font w:name=\"");
    reveal_strlit("</w:fonts>");
}

pub open spec fn font_xml(name: Seq<char>) -> Seq<char> {
    quoted_of(font_lit(), name) + font_end_lit()
}

pub open spec fn fonts_items_xml(fs: Seq<Seq<char>>) -> Seq<char>
    decreases fs.len(),
{
    if fs.len() == 0 {
        Seq::<char>::empty()
    } else {
        font_xml(fs[0]) + fonts_items_xml(fs.skip(1))
    }
}

pub open spec fn fonts_xml(v: FontTableView) -> Seq<char> {
    fonts_open() + fonts_items_xml(v.fonts) + fonts_close()
}

pub proof fn lemma_fonts_items_concat(a: Seq<Seq<char>>, b: Seq<Seq<char>>)
    ensures
        fonts_items_xml(a + b) == fonts_items_xml(a) + fonts_items_xml(b),
    decreases a.len(),
{
    if a.len() == 0 {
        assert(a + b =~= b);
        assert(fonts_items_xml(a) + fonts_items_xml(b) =~= fonts_items_xml(b));
    } else {
        assert((a + b).skip(1) =~= a.skip(1) + b);
        lemma_fonts_items_concat(a.skip(1), b);
        assert((a + b)[0] == a[0]);
        assert(font_xml(a[0]) + (fonts_items_xml(a.skip(1)) + fonts_items_xml(b)) =~= (font_xml(
            a[0],
        ) + fonts_items_xml(a.skip(1))) + fonts_items_xml(b));
    }
}

pub open spec fn parse_font_item(s: Seq<char>, i: int) -> Option<(Seq<char>, int)> {
    match parse_quoted(s, i, font_lit()) {
        Some((name, j)) => match lit_at(s, j, font_end_lit()) {
            Some(e) => Some((name, e)),
            None => None,
        },
        None => None,
    }
}

pub open spec fn parse_font_items(s: Seq<char>, i: int) -> Option<(Seq<Seq<char>>, int)>
    decreases s.len() - i,
{
    if i < 0 || i > s.len() {
        None
    } else {
        match lit_at(s, i, fonts_close()) {
            Some(e) => Some((Seq::<Seq<char>>::empty(), e)),
            None => match parse_font_item(s, i) {
                Some((f, j)) => if i < j <= s.len() {
                    match parse_font_items(s, j) {
                        Some((rest, e)) => Some((seq![f] + rest, e)),
                        None => None,
                    }
                } else {
                    None
                },
                None => None,
            },
        }
    }
}

pub open spec fn parse_fonts(s: Seq<char>) -> Option<FontTableView> {
    match lit_at(s, 0, fonts_open()) {
        Some(j) => match parse_font_items(s, j) {
            Some((fs, e)) => if e == s.len() {
                Some(FontTableView { fonts: fs })
            } else {
                None
            },
            None => None,
        },
        None => None,
    }
}

pub proof fn lemma_font_item_rt(name: Seq<char>, pre: Seq<char>, rest: Seq<char>)
    ensures
        parse_font_item(pre + font_xml(name) + rest, pre.len() as int) == Some(
            (name, (pre.len() + font_xml(name).len()) as int),
        ),
{
    let s = pre + font_xml(name) + rest;
    assert(s =~= pre + quoted_of(font_lit(), name) + (font_end_lit() + rest));
    lemma_quoted_rt(pre, font_lit(), name, font_end_lit() + rest);
    assert(s =~= (pre + quoted_of(font_lit(), name)) + font_end_lit() + rest);
    lemma_lit_at_concat(pre + quoted_of(font_lit(), name), font_end_lit(), rest);
}

#[verifier::rlimit(100)]
#[verifier::spinoff_prover]
pub proof fn lemma_font_items_rt(fs: Seq<Seq<char>>, pre: Seq<char>, rest: Seq<char>)
    ensures
        parse_font_items(pre + (fonts_items_xml(fs) + fonts_close()) + rest, pre.len() as int)
            == Some((fs, (pre.len() + fonts_items_xml(fs).len() + fonts_close().len()) as int)),
    decreases fs.len(),
{
    lemma_fonts_literals();
    let s = pre + (fonts_items_xml(fs) + fonts_close()) + rest;
    if fs.len() == 0 {
        assert(s =~= pre + fonts_close() + rest);
        lemma_lit_at_concat(pre, fonts_close(), rest);
        assert(Seq::<Seq<char>>::empty() =~= fs);
    } else {
        let f0 = fs[0];
        let tail = fs.skip(1);
        let x0 = font_xml(f0);
        assert(fonts_items_xml(fs) == x0 + fonts_items_xml(tail));
        assert(s[pre.len() as int + 1] == x0[1]) by {
            assert(s[pre.len() as int + 1] == (fonts_items_xml(fs) + fonts_close())[1]);
        }
        assert(x0[1] == font_lit()[1]) by {
            assert(x0[1] == quoted_of(font_lit(), f0)[1]);
        }
        lemma_lit_at_none(s, pre.len() as int, fonts_close(), 1);
        assert(s =~= pre + x0 + (fonts_items_xml(tail) + fonts_close() + rest));
        lemma_font_item_rt(f0, pre, fonts_items_xml(tail) + fonts_close() + rest);
        let j = pre.len() + x0.len();
        assert(parse_font_item(s, pre.len() as int) == Some((f0, j as int)));
        assert(s =~= (pre + x0) + (fonts_items_xml(tail) + fonts_close()) + rest);
        lemma_font_items_rt(tail, pre + x0, rest);
        assert(seq![f0] + tail =~= fs);
    }
}

/// Parsing recovers a serialized font table exactly.
pub proof fn lemma_fonts_rt(v: FontTableView)
    ensures
        parse_fonts(fonts_xml(v)) == Some(v),
{
    let s = fonts_xml(v);
    let body = fonts_items_xml(v.fonts) + fonts_close();
    assert(Seq::<char>::empty() + fonts_open() + body =~= s);
    lemma_lit_at_concat(Seq::<char>::empty(), fonts_open(), body);
    lemma_font_items_rt(v.fonts, fonts_open(), Seq::<char>::empty());
    assert(fonts_open() + (fonts_items_xml(v.fonts) + fonts_close()) + Seq::<char>::empty() =~= s);
}

fn parse_font_item_x(s: &str, i: usize) -> (r: Option<(String, usize)>)
    ensures
        match r {
            Some(p) => parse_font_item(s@, i as int) == Some((p.0@, p.1 as int)),
            None => parse_font_item(s@, i as int) is None,
        },
{
    match quoted(s, i, "<w:font w:name=\"") {
        None => None,
        Some((name, j)) => match lit_match(s, j, "/>") {
            None => None,
            Some(e) => Some((name, e)),
        },
    }
}

fn parse_font_items_x(s: &str, i: usize) -> (r: Option<(Vec<String>, usize)>)
    ensures
        match r {
            Some(p) => parse_font_items(s@, i as int) == Some(
                (p.0@.map_values(|x: String| x@), p.1 as int),
            ),
            None => parse_font_items(s@, i as int) is None,
        },
    decreases s@.len() - i,
{
    let n = s.unicode_len();
    if i > n {
        return None;
    }
    match lit_match(s, i, "</w:fonts>") {
        Some(e) => {
            let v: Vec<String> = Vec::new();
            proof {
                assert(v@.map_values(|x: String| x@) =~= Seq::<Seq<char>>::empty());
            }
            Some((v, e))
        },
        None => match parse_font_item_x(s, i) {
            None => None,
            Some((f0, j)) => {
                if !(i < j && j <= n) {
                    return None;
                }
                match parse_font_items_x(s, j) {
                    None => None,
                    Some((mut v, e)) => {
                        let ghost tail = v@;
                        v.insert(0, f0);
                        proof {
                            assert(v@.map_values(|x: String| x@) =~= seq![f0@] + tail.map_values(
                                |x: String| x@,
                            ));
                        }
                        Some((v, e))
                    },
                }
            },
        },
    }
}

impl FontTable {
    /// Appends a font name.
    pub fn add_font(&mut self, name: &str)
        ensures
            final(self)@.fonts == old(self)@.fonts.push(name@),
    {
        let ghost before = self@.fonts;
        self.fonts.push(String::from_str(name));
        proof {
            assert(self@.fonts =~= before.push(name@));
        }
    }

    pub fn to_xml(&self) -> (r: String)
        ensures
            r@ == fonts_xml(self@),
    {
        let mut out = String::new();
        out.append(
            "<w:fonts xmlns:w=\"http://schemas.openxmlformats.org/wordprocessingml/2006/main\">",
        );
        let ghost all = self@.fonts;
        let mut i: usize = 0;
        while i < self.fonts.len()
            invariant
                i <= self.fonts.len(),
                all == self@.fonts,
                all.len() == self.fonts.len(),
                out@ == fonts_open() + fonts_items_xml(all.take(i as int)),
            decreases self.fonts.len() - i,
        {
            push_attr(&mut out, "<w:font w:name=\"", self.fonts[i].as_str());
            out.append("/>");
            proof {
                lemma_fonts_items_concat(all.take(i as int), seq![all[i as int]]);
                assert(all.take(i + 1) =~= all.take(i as int) + seq![all[i as int]]);
                assert(seq![all[i as int]].skip(1) =~= Seq::<Seq<char>>::empty());
                assert(fonts_items_xml(seq![all[i as int]]) == font_xml(all[i as int])
                    + fonts_items_xml(Seq::<Seq<char>>::empty()));
                assert(font_xml(all[i as int]) + Seq::<char>::empty() =~= font_xml(all[i as int]));
                assert(out@ =~= fonts_open() + fonts_items_xml(all.take(i + 1)));
            }
            i += 1;
        }
        out.append("</w:fonts>");
        proof {
            assert(all.take(all.len() as int) =~= all);
            assert(out@ =~= fonts_xml(self@));
        }
        out
    }

    pub fn from_str(s: &str) -> (r: Result<FontTable, DocxError>)
        ensures
            match r {
                Ok(f) => parse_fonts(s@) == Some(f@),
                Err(e) => parse_fonts(s@) is None && e == DocxError::MalformedXml,
            },
    {
        let n = s.unicode_len();
        let j = match lit_match(
            s,
            0,
            "<w:fonts xmlns:w=\"http://schemas.openxmlformats.org/wordprocessingml/2006/main\">",
        ) {
            None => {
                return Err(DocxError::MalformedXml);
            },
            Some(j) => j,
        };
        match parse_font_items_x(s, j) {
            None => Err(DocxError::MalformedXml),
            Some((fs, e)) => {
                if e != n {
                    return Err(DocxError::MalformedXml);
                }
                Ok(FontTable { fonts: fs })
            },
        }
    }
}

impl Default for FontTable {
    /// An empty font table.
    fn default() -> (r: Self)
        ensures
            r@.fonts.len() == 0,
    {
        let r = FontTable { fonts: Vec::new() };
        proof {
            assert(r@.fonts =~= Seq::<Seq<char>>::empty());
        }
        r
    }
}

} // verus!
