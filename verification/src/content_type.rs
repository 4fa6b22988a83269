//! The content-type registry: extension-level defaults and path-level
//! overrides. An override always takes precedence over a default, and the
//! two kinds are kept apart so that round-tripping never collapses an
//! override into a default.

use vstd::prelude::*;
use crate::error::DocxError;
use crate::xmltext::{lemma_lit_at_concat, lemma_lit_at_none, lemma_quoted_rt, lit_at, lit_match,
    parse_quoted, push_attr, quoted, quoted_of};

verus! {

/// One registry entry: an extension or a part path, and its type string.
pub struct CtEntry {
    pub key: String,
    pub ty: String,
}

pub struct CtEntryView {
    pub key: Seq<char>,
    pub ty: Seq<char>,
}

impl View for CtEntry {
    type V = CtEntryView;

    open spec fn view(&self) -> CtEntryView {
        CtEntryView { key: self.key@, ty: self.ty@ }
    }
}

pub struct CtView {
    pub defaults: Seq<CtEntryView>,
    pub overrides: Seq<CtEntryView>,
}

/// The registry. Serialization writes all defaults, then all overrides.
pub struct ContentTypes {
    pub defaults: Vec<CtEntry>,
    pub overrides: Vec<CtEntry>,
}

impl View for ContentTypes {
    type V = CtView;

    open spec fn view(&self) -> CtView {
        CtView {
            defaults: self.defaults@.map_values(|e: CtEntry| e@),
            overrides: self.overrides@.map_values(|e: CtEntry| e@),
        }
    }
}

pub open spec fn ct_open() -> Seq<char> {
    "<Types xmlns=\"http://schemas.openxmlformats.org/package/2006/content-types\">"@
}

pub open spec fn ct_close() -> Seq<char> {
    "</Types>"@
}

pub open spec fn ct_def_lit() -> Seq<char> {
    "<Default Extension=\""@
}

pub open spec fn ct_ovr_lit() -> Seq<char> {
    "<Override PartName=\""@
}

pub open spec fn ct_ty_lit() -> Seq<char> {
    " ContentType=\""@
}

pub open spec fn ct_end_lit() -> Seq<char> {
    "/>"@
}

pub proof fn lemma_ct_literals()
    ensures
        ct_def_lit().len() == 20,
        ct_def_lit()[1] == 'D',
        ct_ovr_lit().len() == 20,
        ct_ovr_lit()[1] == 'O',
        ct_close().len() == 8,
        ct_close()[1] == '/',
{
    reveal_strlit("<Default Extension=\"");
    reveal_strlit("<Override PartName=\"");
    reveal_strlit("</Types>");
}

pub open spec fn ct_item_xml(lit: Seq<char>, e: CtEntryView) -> Seq<char> {
    quoted_of(lit, e.key) + quoted_of(ct_ty_lit(), e.ty) + ct_end_lit()
}

pub open spec fn ct_items_xml(lit: Seq<char>, es: Seq<CtEntryView>) -> Seq<char>
    decreases es.len(),
{
    if es.len() == 0 {
        Seq::<char>::empty()
    } else {
        ct_item_xml(lit, es[0]) + ct_items_xml(lit, es.skip(1))
    }
}

/// The serialized registry.
pub open spec fn ct_xml(v: CtView) -> Seq<char> {
    ct_open() + ct_items_xml(ct_def_lit(), v.defaults) + ct_items_xml(ct_ovr_lit(), v.overrides)
        + ct_close()
}

pub proof fn lemma_ct_items_concat(lit: Seq<char>, a: Seq<CtEntryView>, b: Seq<CtEntryView>)
    ensures
        ct_items_xml(lit, a + b) == ct_items_xml(lit, a) + ct_items_xml(lit, b),
    decreases a.len(),
{
    if a.len() == 0 {
        assert(a + b =~= b);
        assert(ct_items_xml(lit, a) + ct_items_xml(lit, b) =~= ct_items_xml(lit, b));
    } else {
        assert((a + b).skip(1) =~= a.skip(1) + b);
        lemma_ct_items_concat(lit, a.skip(1), b);
        assert((a + b)[0] == a[0]);
        assert(ct_item_xml(lit, a[0]) + (ct_items_xml(lit, a.skip(1)) + ct_items_xml(lit, b))
            =~= (ct_item_xml(lit, a[0]) + ct_items_xml(lit, a.skip(1))) + ct_items_xml(lit, b));
    }
}

pub open spec fn parse_ct_item(s: Seq<char>, i: int, lit: Seq<char>) -> Option<(CtEntryView, int)> {
    match parse_quoted(s, i, lit) {
        Some((key, j)) => match parse_quoted(s, j, ct_ty_lit()) {
            Some((ty, j2)) => match lit_at(s, j2, ct_end_lit()) {
                Some(e) => Some((CtEntryView { key: key, ty: ty }, e)),
                None => None,
            },
            None => None,
        },
        None => None,
    }
}

/// Items of one kind, repeated as long as they match; never fails, the
/// caller checks what follows.
pub open spec fn parse_ct_items(s: Seq<char>, i: int, lit: Seq<char>) -> (Seq<CtEntryView>, int)
    decreases s.len() - i,
{
    if i < 0 || i > s.len() {
        (Seq::<CtEntryView>::empty(), i)
    } else {
        match parse_ct_item(s, i, lit) {
            Some((e, j)) => if i < j <= s.len() {
                let (rest, k) = parse_ct_items(s, j, lit);
                (seq![e] + rest, k)
            } else {
                (Seq::<CtEntryView>::empty(), i)
            },
            None => (Seq::<CtEntryView>::empty(), i),
        }
    }
}

/// The whole registry document.
pub open spec fn parse_ct(s: Seq<char>) -> Option<CtView> {
    match lit_at(s, 0, ct_open()) {
        Some(j) => {
            let (ds, j2) = parse_ct_items(s, j, ct_def_lit());
            let (os, j3) = parse_ct_items(s, j2, ct_ovr_lit());
            match lit_at(s, j3, ct_close()) {
                Some(e) => if e == s.len() {
                    Some(CtView { defaults: ds, overrides: os })
                } else {
                    None
                },
                None => None,
            }
        },
        None => None,
    }
}

pub proof fn lemma_ct_item_rt(lit: Seq<char>, e: CtEntryView, pre: Seq<char>, rest: Seq<char>)
    ensures
        parse_ct_item(pre + ct_item_xml(lit, e) + rest, pre.len() as int, lit) == Some(
            (e, (pre.len() + ct_item_xml(lit, e).len()) as int),
        ),
{
    let s = pre + ct_item_xml(lit, e) + rest;
    let p1 = pre + quoted_of(lit, e.key);
    let p2 = p1 + quoted_of(ct_ty_lit(), e.ty);
    assert(s =~= pre + quoted_of(lit, e.key) + (quoted_of(ct_ty_lit(), e.ty) + ct_end_lit()
        + rest));
    lemma_quoted_rt(pre, lit, e.key, quoted_of(ct_ty_lit(), e.ty) + ct_end_lit() + rest);
    assert(s =~= p1 + quoted_of(ct_ty_lit(), e.ty) + (ct_end_lit() + rest));
    lemma_quoted_rt(p1, ct_ty_lit(), e.ty, ct_end_lit() + rest);
    assert(s =~= p2 + ct_end_lit() + rest);
    lemma_lit_at_concat(p2, ct_end_lit(), rest);
}

/// A list of one kind parses back exactly, stopping where the following
/// text begins with `<` and a character other than the kind's second one.
#[verifier::rlimit(100)]
#[verifier::spinoff_prover]
pub proof fn lemma_ct_items_rt(lit: Seq<char>, es: Seq<CtEntryView>, pre: Seq<char>, rest: Seq<char>)
    requires
        lit.len() >= 2,
        rest.len() >= 2,
        rest[1] != lit[1],
    ensures
        parse_ct_items(pre + ct_items_xml(lit, es) + rest, pre.len() as int, lit) == (
            es,
            (pre.len() + ct_items_xml(lit, es).len()) as int,
        ),
    decreases es.len(),
{
    let s = pre + ct_items_xml(lit, es) + rest;
    if es.len() == 0 {
        assert(s =~= pre + rest);
        assert(s[pre.len() as int + 1] == rest[1]);
        lemma_lit_at_none(s, pre.len() as int, lit, 1);
        assert(parse_ct_item(s, pre.len() as int, lit) is None);
        assert(Seq::<CtEntryView>::empty() =~= es);
    } else {
        let e0 = es[0];
        let tail = es.skip(1);
        let x0 = ct_item_xml(lit, e0);
        assert(ct_items_xml(lit, es) == x0 + ct_items_xml(lit, tail));
        assert(s =~= pre + x0 + (ct_items_xml(lit, tail) + rest));
        lemma_ct_item_rt(lit, e0, pre, ct_items_xml(lit, tail) + rest);
        let j = pre.len() + x0.len();
        assert(parse_ct_item(s, pre.len() as int, lit) == Some((e0, j as int)));
        assert(s =~= (pre + x0) + ct_items_xml(lit, tail) + rest);
        lemma_ct_items_rt(lit, tail, pre + x0, rest);
        assert(seq![e0] + tail =~= es);
    }
}

/// Parsing recovers a serialized registry exactly.
#[verifier::rlimit(100)]
#[verifier::spinoff_prover]
pub proof fn lemma_ct_rt(v: CtView)
    ensures
        parse_ct(ct_xml(v)) == Some(v),
{
    lemma_ct_literals();
    let s = ct_xml(v);
    let dx = ct_items_xml(ct_def_lit(), v.defaults);
    let ox = ct_items_xml(ct_ovr_lit(), v.overrides);
    assert(Seq::<char>::empty() + ct_open() + (dx + ox + ct_close()) =~= s);
    lemma_lit_at_concat(Seq::<char>::empty(), ct_open(), dx + ox + ct_close());
    let j = ct_open().len() as int;
    assert(s =~= ct_open() + dx + (ox + ct_close()));
    assert((ox + ct_close()).len() >= 2);
    assert((ox + ct_close())[1] != ct_def_lit()[1]) by {
        if v.overrides.len() == 0 {
            assert(ox =~= Seq::<char>::empty());
            assert((ox + ct_close())[1] == ct_close()[1]);
        } else {
            assert(ox == ct_item_xml(ct_ovr_lit(), v.overrides[0]) + ct_items_xml(
                ct_ovr_lit(),
                v.overrides.skip(1),
            ));
            assert((ox + ct_close())[1] == ox[1]);
            assert(ox[1] == quoted_of(ct_ovr_lit(), v.overrides[0].key)[1]);
            assert(ox[1] == ct_ovr_lit()[1]);
        }
    }
    lemma_ct_items_rt(ct_def_lit(), v.defaults, ct_open(), ox + ct_close());
    let j2 = ct_open().len() + dx.len();
    assert(s =~= (ct_open() + dx) + ox + ct_close());
    assert(ct_close()[1] != ct_ovr_lit()[1]);
    lemma_ct_items_rt(ct_ovr_lit(), v.overrides, ct_open() + dx, ct_close());
    let j3 = ct_open().len() + dx.len() + ox.len();
    assert(s =~= (ct_open() + dx + ox) + ct_close() + Seq::<char>::empty());
    lemma_lit_at_concat(ct_open() + dx + ox, ct_close(), Seq::<char>::empty());
}

fn parse_ct_item_x(s: &str, i: usize, lit: &str) -> (r: Option<(CtEntry, usize)>)
    ensures
        match r {
            Some(p) => parse_ct_item(s@, i as int, lit@) == Some((p.0@, p.1 as int)),
            None => parse_ct_item(s@, i as int, lit@) is None,
        },
{
    match quoted(s, i, lit) {
        None => None,
        Some((key, j)) => match quoted(s, j, " ContentType=\"") {
            None => None,
            Some((ty, j2)) => match lit_match(s, j2, "/>") {
                None => None,
                Some(e) => Some((CtEntry { key: key, ty: ty }, e)),
            },
        },
    }
}

fn parse_ct_items_x(s: &str, i: usize, lit: &str) -> (r: (Vec<CtEntry>, usize))
    requires
        i <= s@.len(),
    ensures
        parse_ct_items(s@, i as int, lit@) == (r.0@.map_values(|x: CtEntry| x@), r.1 as int),
        i <= r.1 <= s@.len(),
    decreases s@.len() - i,
{
    let n = s.unicode_len();
    match parse_ct_item_x(s, i, lit) {
        None => {
            let v: Vec<CtEntry> = Vec::new();
            proof {
                assert(v@.map_values(|x: CtEntry| x@) =~= Seq::<CtEntryView>::empty());
            }
            (v, i)
        },
        Some((e0, j)) => {
            if !(i < j && j <= n) {
                let v: Vec<CtEntry> = Vec::new();
                proof {
                    assert(v@.map_values(|x: CtEntry| x@) =~= Seq::<CtEntryView>::empty());
                }
                return (v, i);
            }
            let (mut v, k) = parse_ct_items_x(s, j, lit);
            let ghost tail = v@;
            v.insert(0, e0);
            proof {
                assert(v@.map_values(|x: CtEntry| x@) =~= seq![e0@] + tail.map_values(
                    |x: CtEntry| x@,
                ));
            }
            (v, k)
        },
    }
}

impl ContentTypes {
    /// Registers an extension-level default type.
    pub fn register_default(&mut self, ext: &str, ty: &str)
        ensures
            final(self)@.defaults == old(self)@.defaults.push(
                CtEntryView { key: ext@, ty: ty@ },
            ),
            final(self)@.overrides == old(self)@.overrides,
    {
        let ghost before = self@.defaults;
        self.defaults.push(CtEntry { key: String::from_str(ext), ty: String::from_str(ty) });
        proof {
            assert(self@.defaults =~= before.push(CtEntryView { key: ext@, ty: ty@ }));
        }
    }

    /// Registers a path-level override type; it takes precedence over any
    /// default for the path's extension.
    pub fn register_override(&mut self, path: &str, ty: &str)
        ensures
            final(self)@.overrides == old(self)@.overrides.push(
                CtEntryView { key: path@, ty: ty@ },
            ),
            final(self)@.defaults == old(self)@.defaults,
    {
        let ghost before = self@.overrides;
        self.overrides.push(CtEntry { key: String::from_str(path), ty: String::from_str(ty) });
        proof {
            assert(self@.overrides =~= before.push(CtEntryView { key: path@, ty: ty@ }));
        }
    }

    /// Serializes the registry: defaults first, then overrides.
    pub fn to_xml(&self) -> (r: String)
        ensures
            r@ == ct_xml(self@),
    {
        let mut out = String::new();
        out.append("<Types xmlns=\"http://schemas.openxmlformats.org/package/2006/content-types\">");
        write_ct_items(&mut out, &self.defaults, "<Default Extension=\"");
        write_ct_items(&mut out, &self.overrides, "<Override PartName=\"");
        out.append("</Types>");
        proof {
            assert(out@ =~= ct_xml(self@));
        }
        out
    }

    /// Parses a serialized registry.
    pub fn from_str(s: &str) -> (r: Result<ContentTypes, DocxError>)
        ensures
            match r {
                Ok(c) => parse_ct(s@) == Some(c@),
                Err(e) => parse_ct(s@) is None && e == DocxError::MalformedXml,
            },
    {
        let n = s.unicode_len();
        let j = match lit_match(
            s,
            0,
            "<Types xmlns=\"http://schemas.openxmlformats.org/package/2006/content-types\">",
        ) {
            None => {
                return Err(DocxError::MalformedXml);
            },
            Some(j) => j,
        };
        let (ds, j2) = parse_ct_items_x(s, j, "<Default Extension=\"");
        let (os, j3) = parse_ct_items_x(s, j2, "<Override PartName=\"");
        match lit_match(s, j3, "</Types>") {
            None => Err(DocxError::MalformedXml),
            Some(e) => {
                if e != n {
                    return Err(DocxError::MalformedXml);
                }
                Ok(ContentTypes { defaults: ds, overrides: os })
            },
        }
    }
}

/// Appends one kind's items to `out`.
fn write_ct_items(out: &mut String, es: &Vec<CtEntry>, lit: &str)
    ensures
        final(out)@ == old(out)@ + ct_items_xml(lit@, es@.map_values(|e: CtEntry| e@)),
{
    let ghost all = es@.map_values(|e: CtEntry| e@);
    let mut i: usize = 0;
    proof {
        assert(all.take(0) =~= Seq::<CtEntryView>::empty());
        assert(old(out)@ + ct_items_xml(lit@, all.take(0)) =~= old(out)@);
    }
    while i < es.len()
        invariant
            i <= es.len(),
            all == es@.map_values(|e: CtEntry| e@),
            all.len() == es@.len(),
            out@ == old(out)@ + ct_items_xml(lit@, all.take(i as int)),
        decreases es.len() - i,
    {
        let e = &es[i];
        push_attr(out, lit, e.key.as_str());
        push_attr(out, " ContentType=\"", e.ty.as_str());
        out.append("/>");
        proof {
            lemma_ct_items_concat(lit@, all.take(i as int), seq![all[i as int]]);
            assert(all.take(i + 1) =~= all.take(i as int) + seq![all[i as int]]);
            assert(seq![all[i as int]].skip(1) =~= Seq::<CtEntryView>::empty());
            assert(ct_items_xml(lit@, seq![all[i as int]]) == ct_item_xml(lit@, all[i as int])
                + ct_items_xml(lit@, Seq::<CtEntryView>::empty()));
            assert(ct_item_xml(lit@, all[i as int]) + Seq::<char>::empty() =~= ct_item_xml(
                lit@,
                all[i as int],
            ));
            assert(out@ =~= old(out)@ + ct_items_xml(lit@, all.take(i + 1)));
        }
        i += 1;
    }
    proof {
        assert(all.take(all.len() as int) =~= all);
    }
}

impl Default for ContentTypes {
    /// The registry every fresh aggregate starts with: extension defaults
    /// for `rels` and `xml`, and an override for each known part path.
    fn default() -> (r: Self)
        ensures
            r@ == ct_default_view(),
    {
        let mut c = ContentTypes { defaults: Vec::new(), overrides: Vec::new() };
        proof {
            assert(c@.defaults =~= Seq::<CtEntryView>::empty());
            assert(c@.overrides =~= Seq::<CtEntryView>::empty());
        }
        c.register_default("rels", "application/vnd.openxmlformats-package.relationships+xml");
        c.register_default("xml", "application/xml");
        c.register_override(
            "/word/document.xml",
            "application/vnd.openxmlformats-officedocument.wordprocessingml.document.main+xml",
        );
        c.register_override(
            "/docProps/app.xml",
            "application/vnd.openxmlformats-officedocument.extended-properties+xml",
        );
        c.register_override(
            "/docProps/core.xml",
            "application/vnd.openxmlformats-package.core-properties+xml",
        );
        c.register_override(
            "/word/styles.xml",
            "application/vnd.openxmlformats-officedocument.wordprocessingml.styles+xml",
        );
        c.register_override(
            "/word/fontTable.xml",
            "application/vnd.openxmlformats-officedocument.wordprocessingml.fontTable+xml",
        );
        proof {
            assert(c@.defaults =~= ct_default_view().defaults);
            assert(c@.overrides =~= ct_default_view().overrides);
        }
        c
    }
}

/// The contents of the default registry.
pub open spec fn ct_default_view() -> CtView {
    CtView {
        defaults: seq![
            CtEntryView {
                key: "rels"@,
                ty: "application/vnd.openxmlformats-package.relationships+xml"@,
            },
            CtEntryView { key: "xml"@, ty: "application/xml"@ },
        ],
        overrides: seq![
            CtEntryView {
                key: "/word/document.xml"@,
                ty: "application/vnd.openxmlformats-officedocument.wordprocessingml.document.main+xml"@,
            },
            CtEntryView {
                key: "/docProps/app.xml"@,
                ty: "application/vnd.openxmlformats-officedocument.extended-properties+xml"@,
            },
            CtEntryView {
                key: "/docProps/core.xml"@,
                ty: "application/vnd.openxmlformats-package.core-properties+xml"@,
            },
            CtEntryView {
                key: "/word/styles.xml"@,
                ty: "application/vnd.openxmlformats-officedocument.wordprocessingml.styles+xml"@,
            },
            CtEntryView {
                key: "/word/fontTable.xml"@,
                ty: "application/vnd.openxmlformats-officedocument.wordprocessingml.fontTable+xml"@,
            },
        ],
    }
}

} // verus!
