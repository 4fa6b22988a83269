//! The relationships graph: an ordered sequence of (id, type, target)
//! triples. Ids are allocated monotonically as `rId1`, `rId2`, ...; after
//! parsing an externally produced graph the allocator starts above every
//! numeric id it saw, so a fresh id never collides with a parsed one.

use vstd::prelude::*;
use crate::error::DocxError;
use crate::numdec::{REL_ID_CAP, canonical, dec, digit_val, is_digit, lemma_canonical_dec,
    lemma_dec_canonical, lemma_dec_len, lemma_pow10_18, lemma_val_bound, pow10,
    push_dec, val_of};
use crate::xmltext::{lemma_lit_at_concat, lemma_lit_at_none, lemma_quoted_rt, lit_at,
    lit_match, parse_quoted, push_attr, quoted, quoted_of};

verus! {

/// The mathematical model of one relationship entry.
pub struct RelView {
    pub id: Seq<char>,
    pub ty: Seq<char>,
    pub target: Seq<char>,
}

/// The mathematical model of a graph: its entries in insertion order and
/// the next allocator value.
pub struct RelsView {
    pub rels: Seq<RelView>,
    pub next: nat,
}

pub open spec fn rid_prefix() -> Seq<char> {
    seq!['r', 'I', 'd']
}

/// The id string allocated for number `n`.
pub open spec fn rid_str(n: nat) -> Seq<char> {
    rid_prefix() + dec(n)
}

/// The allocator number an id stands for, if it is a canonical `rId`
/// numeral of at most 18 digits; `None` for every other token.
pub open spec fn rid_num(s: Seq<char>) -> Option<nat> {
    if s.len() > 3 && s.len() <= 21 && s.subrange(0, 3) == rid_prefix() && canonical(s.skip(3)) {
        Some(val_of(s.skip(3)))
    } else {
        None
    }
}

pub proof fn lemma_rid_num_of_str(n: nat)
    requires
        n < pow10(18),
    ensures
        rid_num(rid_str(n)) == Some(n),
{
    lemma_dec_canonical(n);
    lemma_dec_len(n, 18);
    let s = rid_str(n);
    assert(s.subrange(0, 3) =~= rid_prefix());
    assert(s.skip(3) =~= dec(n));
}

pub proof fn lemma_rid_num_inv(s: Seq<char>)
    requires
        rid_num(s) is Some,
    ensures
        s == rid_str(rid_num(s).unwrap()),
        rid_num(s).unwrap() < pow10(18),
{
    let suf = s.skip(3);
    lemma_canonical_dec(suf);
    lemma_val_bound(suf, 18);
    assert(s =~= rid_prefix() + suf);
}

/// The ids of a sequence of entries.
pub open spec fn ids_of(rs: Seq<RelView>) -> Seq<Seq<char>> {
    rs.map_values(|r: RelView| r.id)
}

/// The smallest allocator value above every numeric id in the list; 1 when
/// none is numeric.
pub open spec fn next_after(ids: Seq<Seq<char>>) -> nat
    decreases ids.len(),
{
    if ids.len() == 0 {
        1
    } else {
        let rest = next_after(ids.drop_last());
        match rid_num(ids.last()) {
            Some(v) => if v + 1 > rest {
                v + 1
            } else {
                rest
            },
            None => rest,
        }
    }
}

pub proof fn lemma_next_after_ge(ids: Seq<Seq<char>>, i: int)
    requires
        0 <= i < ids.len(),
        rid_num(ids[i]) is Some,
    ensures
        rid_num(ids[i]).unwrap() < next_after(ids),
    decreases ids.len(),
{
    if i == ids.len() - 1 {
        assert(ids.last() == ids[i]);
    } else {
        assert(ids.drop_last()[i] == ids[i]);
        lemma_next_after_ge(ids.drop_last(), i);
    }
}

impl RelsView {
    pub open spec fn ids(self) -> Seq<Seq<char>> {
        ids_of(self.rels)
    }

    /// The allocator agrees with the entries: it stands strictly above
    /// every numeric id.
    pub open spec fn wf(self) -> bool {
        self.next == next_after(self.ids())
    }

    pub open spec fn ids_distinct(self) -> bool {
        forall|i: int, j: int|
            0 <= i < j < self.rels.len() ==> self.rels[i].id != self.rels[j].id
    }

    /// The id the next `add_rel` call will allocate.
    pub open spec fn fresh_id(self) -> Seq<char> {
        rid_str(self.next)
    }

    /// Room for `k` more allocations before the id numeral cap.
    pub open spec fn can_alloc(self, k: nat) -> bool {
        self.next + k <= REL_ID_CAP
    }

    /// The graph after one `add_rel` call.
    pub open spec fn add(self, ty: Seq<char>, target: Seq<char>) -> RelsView {
        RelsView {
            rels: self.rels.push(RelView { id: rid_str(self.next), ty: ty, target: target }),
            next: self.next + 1,
        }
    }

    pub open spec fn empty() -> RelsView {
        RelsView { rels: Seq::empty(), next: 1 }
    }
}

/// A fresh id collides with no id already in the graph — neither with an
/// allocated one nor with one preserved verbatim from parsed input.
pub proof fn lemma_fresh_id_fresh(g: RelsView)
    requires
        g.wf(),
        g.can_alloc(1),
    ensures
        forall|i: int| 0 <= i < g.rels.len() ==> g.rels[i].id != g.fresh_id(),
{
    lemma_pow10_18();
    assert forall|i: int| 0 <= i < g.rels.len() implies g.rels[i].id != g.fresh_id() by {
        let id = g.rels[i].id;
        assert(g.ids()[i] == id);
        lemma_rid_num_of_str(g.next);
        if rid_num(id) is Some {
            lemma_next_after_ge(g.ids(), i);
            if id == g.fresh_id() {
                assert(rid_num(id) == Some(g.next));
            }
        } else {
            if id == g.fresh_id() {
                assert(rid_num(id) is Some);
            }
        }
    }
}

/// Adding an entry keeps the graph well formed; the allocator advances by
/// exactly one.
pub proof fn lemma_add_wf(g: RelsView, ty: Seq<char>, target: Seq<char>)
    requires
        g.wf(),
        g.can_alloc(1),
    ensures
        g.add(ty, target).wf(),
{
    lemma_pow10_18();
    let g2 = g.add(ty, target);
    assert(g2.ids() =~= g.ids().push(rid_str(g.next)));
    assert(g2.ids().drop_last() =~= g.ids());
    assert(g2.ids().last() == rid_str(g.next));
    lemma_rid_num_of_str(g.next);
}

/// Adding an entry to a graph with pairwise distinct ids keeps them
/// pairwise distinct: allocation never reuses an id.
pub proof fn lemma_add_distinct(g: RelsView, ty: Seq<char>, target: Seq<char>)
    requires
        g.wf(),
        g.can_alloc(1),
        g.ids_distinct(),
    ensures
        g.add(ty, target).ids_distinct(),
{
    lemma_fresh_id_fresh(g);
    let g2 = g.add(ty, target);
    assert forall|i: int, j: int|
        0 <= i < j < g2.rels.len() implies g2.rels[i].id != g2.rels[j].id by {
        if j == g2.rels.len() - 1 {
            assert(g2.rels[i].id == g.rels[i].id);
            assert(g2.rels[j].id == g.fresh_id());
        } else {
            assert(g2.rels[i].id == g.rels[i].id);
            assert(g2.rels[j].id == g.rels[j].id);
        }
    }
}

/// The graph after `n` sequential allocations. The allocated ids do not
/// depend on the entries' types or targets, so one pair stands for all.
pub open spec fn add_n(g: RelsView, ty: Seq<char>, target: Seq<char>, n: nat) -> RelsView
    decreases n,
{
    if n == 0 {
        g
    } else {
        add_n(g, ty, target, (n - 1) as nat).add(ty, target)
    }
}

/// Id uniqueness and monotonicity: any number of sequential allocations on
/// a well-formed graph with pairwise distinct ids — a fresh graph, or one
/// just parsed — advances the allocator one step per call and leaves all
/// ids, the new ones included, pairwise distinct.
pub proof fn lemma_ids_unique_after_adds(g: RelsView, ty: Seq<char>, target: Seq<char>, n: nat)
    requires
        g.wf(),
        g.ids_distinct(),
        g.next + n <= REL_ID_CAP,
    ensures
        add_n(g, ty, target, n).wf(),
        add_n(g, ty, target, n).ids_distinct(),
        add_n(g, ty, target, n).next == g.next + n,
        add_n(g, ty, target, n).rels.len() == g.rels.len() + n,
    decreases n,
{
    if n > 0 {
        lemma_ids_unique_after_adds(g, ty, target, (n - 1) as nat);
        let h = add_n(g, ty, target, (n - 1) as nat);
        lemma_add_wf(h, ty, target);
        lemma_add_distinct(h, ty, target);
    }
}

/// One relationship entry.
pub struct Relationship {
    pub id: String,
    pub ty: String,
    pub target: String,
}

impl View for Relationship {
    type V = RelView;

    open spec fn view(&self) -> RelView {
        RelView { id: self.id@, ty: self.ty@, target: self.target@ }
    }
}

/// An ordered relationship graph with its id allocator.
pub struct Relationships {
    pub rels: Vec<Relationship>,
    /// The next allocator value; maintained by `add_rel` and by parsing.
    pub next: u64,
}

impl View for Relationships {
    type V = RelsView;

    open spec fn view(&self) -> RelsView {
        RelsView { rels: self.rels@.map_values(|r: Relationship| r@), next: self.next as nat }
    }
}

impl Default for Relationships {
    /// An empty graph; the first allocated id is `rId1`.
    fn default() -> (r: Self)
        ensures
            r@ == RelsView::empty(),
            r@.wf(),
            r@.ids_distinct(),
    {
        let r = Relationships { rels: Vec::new(), next: 1 };
        proof {
            assert(r@.rels =~= Seq::<RelView>::empty());
            assert(r@.ids() =~= Seq::<Seq<char>>::empty());
        }
        r
    }
}

/// The views of the literal pieces of the relationships XML.
pub open spec fn rels_open() -> Seq<char> {
    "<Relationships xmlns=\"http://schemas.openxmlformats.org/package/2006/relationships\">"@
}

pub open spec fn rels_close() -> Seq<char> {
    "</Relationships>"@
}

pub open spec fn rel_id_lit() -> Seq<char> {
    "<Relationship Id=\""@
}

pub open spec fn rel_ty_lit() -> Seq<char> {
    " Type=\""@
}

pub open spec fn rel_tg_lit() -> Seq<char> {
    " Target=\""@
}

pub open spec fn rel_end_lit() -> Seq<char> {
    "/>"@
}

/// The index and length facts about those literals that the proofs need.
pub proof fn lemma_rels_literals()
    ensures
        rel_id_lit().len() == 18,
        rel_id_lit()[1] == 'R',
        rels_close().len() == 16,
        rels_close()[1] == '/',
        rel_end_lit().len() == 2,
{
    reveal_strlit("<Relationship Id=\"");
    reveal_strlit("</Relationships>");
    reveal_strlit("/>");
}

/// One serialized entry.
pub open spec fn rel_xml(r: RelView) -> Seq<char> {
    quoted_of(rel_id_lit(), r.id) + quoted_of(rel_ty_lit(), r.ty) + quoted_of(rel_tg_lit(), r.target)
        + rel_end_lit()
}

pub open spec fn rels_xml_items(rs: Seq<RelView>) -> Seq<char>
    decreases rs.len(),
{
    if rs.len() == 0 {
        Seq::<char>::empty()
    } else {
        rel_xml(rs[0]) + rels_xml_items(rs.skip(1))
    }
}

/// The serialized graph: all entries in insertion order.
pub open spec fn rels_xml(g: RelsView) -> Seq<char> {
    rels_open() + rels_xml_items(g.rels) + rels_close()
}

pub proof fn lemma_rels_items_concat(a: Seq<RelView>, b: Seq<RelView>)
    ensures
        rels_xml_items(a + b) == rels_xml_items(a) + rels_xml_items(b),
    decreases a.len(),
{
    if a.len() == 0 {
        assert(a + b =~= b);
        assert(rels_xml_items(a) + rels_xml_items(b) =~= rels_xml_items(b));
    } else {
        assert((a + b).skip(1) =~= a.skip(1) + b);
        lemma_rels_items_concat(a.skip(1), b);
        assert((a + b)[0] == a[0]);
        assert(rel_xml(a[0]) + (rels_xml_items(a.skip(1)) + rels_xml_items(b)) =~= (rel_xml(a[0])
            + rels_xml_items(a.skip(1))) + rels_xml_items(b));
    }
}

/// One parsed entry and the position after it.
pub open spec fn parse_rel_item(s: Seq<char>, i: int) -> Option<(RelView, int)> {
    match parse_quoted(s, i, rel_id_lit()) {
        Some((id, j)) => match parse_quoted(s, j, rel_ty_lit()) {
            Some((ty, j2)) => match parse_quoted(s, j2, rel_tg_lit()) {
                Some((tg, j3)) => match lit_at(s, j3, rel_end_lit()) {
                    Some(e) => Some((RelView { id: id, ty: ty, target: tg }, e)),
                    None => None,
                },
                None => None,
            },
            None => None,
        },
        None => None,
    }
}

/// Entries repeated until the closing tag.
pub open spec fn parse_rel_items(s: Seq<char>, i: int) -> Option<(Seq<RelView>, int)>
    decreases s.len() - i,
{
    if i < 0 || i > s.len() {
        None
    } else {
        match lit_at(s, i, rels_close()) {
            Some(e) => Some((Seq::<RelView>::empty(), e)),
            None => match parse_rel_item(s, i) {
                Some((r, j)) => if i < j <= s.len() {
                    match parse_rel_items(s, j) {
                        Some((rest, e)) => Some((seq![r] + rest, e)),
                        None => None,
                    }
                } else {
                    None
                },
                None => None,
            },
        }
    }
}

/// The whole document: opening tag, entries, closing tag, nothing after.
/// The allocator of the parsed graph starts above every numeric id.
pub open spec fn parse_rels(s: Seq<char>) -> Option<RelsView> {
    match lit_at(s, 0, rels_open()) {
        Some(j) => match parse_rel_items(s, j) {
            Some((rs, e)) => if e == s.len() {
                Some(RelsView { rels: rs, next: next_after(ids_of(rs)) })
            } else {
                None
            },
            None => None,
        },
        None => None,
    }
}

/// Parsing recovers one serialized entry exactly.
pub proof fn lemma_rel_item_rt(r0: RelView, pre: Seq<char>, rest: Seq<char>)
    ensures
        parse_rel_item(pre + rel_xml(r0) + rest, pre.len() as int) == Some(
            (r0, (pre.len() + rel_xml(r0).len()) as int),
        ),
{
    let s = pre + rel_xml(r0) + rest;
    let p1 = pre + quoted_of(rel_id_lit(), r0.id);
    let p2 = p1 + quoted_of(rel_ty_lit(), r0.ty);
    let p3 = p2 + quoted_of(rel_tg_lit(), r0.target);
    assert(s =~= pre + quoted_of(rel_id_lit(), r0.id) + (quoted_of(rel_ty_lit(), r0.ty)
        + quoted_of(rel_tg_lit(), r0.target) + rel_end_lit() + rest));
    lemma_quoted_rt(
        pre,
        rel_id_lit(),
        r0.id,
        quoted_of(rel_ty_lit(), r0.ty) + quoted_of(rel_tg_lit(), r0.target) + rel_end_lit() + rest,
    );
    assert(s =~= p1 + quoted_of(rel_ty_lit(), r0.ty) + (quoted_of(rel_tg_lit(), r0.target)
        + rel_end_lit() + rest));
    lemma_quoted_rt(p1, rel_ty_lit(), r0.ty, quoted_of(rel_tg_lit(), r0.target) + rel_end_lit()
        + rest);
    assert(s =~= p2 + quoted_of(rel_tg_lit(), r0.target) + (rel_end_lit() + rest));
    lemma_quoted_rt(p2, rel_tg_lit(), r0.target, rel_end_lit() + rest);
    assert(s =~= p3 + rel_end_lit() + rest);
    lemma_lit_at_concat(p3, rel_end_lit(), rest);
}

/// Parsing recovers a serialized entry list exactly.
#[verifier::rlimit(100)]
#[verifier::spinoff_prover]
pub proof fn lemma_rel_items_rt(rs: Seq<RelView>, pre: Seq<char>, rest: Seq<char>)
    ensures
        parse_rel_items(pre + (rels_xml_items(rs) + rels_close()) + rest, pre.len() as int)
            == Some((rs, (pre.len() + rels_xml_items(rs).len() + rels_close().len()) as int)),
    decreases rs.len(),
{
    lemma_rels_literals();
    let s = pre + (rels_xml_items(rs) + rels_close()) + rest;
    if rs.len() == 0 {
        assert(s =~= pre + rels_close() + rest);
        lemma_lit_at_concat(pre, rels_close(), rest);
        assert(parse_rel_items(s, pre.len() as int) == Some(
            (Seq::<RelView>::empty(), (pre.len() + rels_close().len()) as int),
        ));
        assert(Seq::<RelView>::empty() =~= rs);
    } else {
        let r0 = rs[0];
        let tail = rs.skip(1);
        let x0 = rel_xml(r0);
        assert(rels_xml_items(rs) == x0 + rels_xml_items(tail));
        // the closing tag does not match where an entry begins
        assert(s[pre.len() as int + 1] == x0[1]) by {
            assert(s[pre.len() as int + 1] == (rels_xml_items(rs) + rels_close())[1]);
        }
        assert(x0[1] == rel_id_lit()[1]) by {
            assert(x0[1] == quoted_of(rel_id_lit(), r0.id)[1]);
        }
        lemma_lit_at_none(s, pre.len() as int, rels_close(), 1);
        // the first entry parses, then the tail behind it
        assert(s =~= pre + x0 + (rels_xml_items(tail) + rels_close() + rest));
        lemma_rel_item_rt(r0, pre, rels_xml_items(tail) + rels_close() + rest);
        let j = pre.len() + x0.len();
        assert(parse_rel_item(s, pre.len() as int) == Some((r0, j as int)));
        assert(s =~= (pre + x0) + (rels_xml_items(tail) + rels_close()) + rest);
        lemma_rel_items_rt(tail, pre + x0, rest);
        assert(seq![r0] + tail =~= rs);
    }
}

/// Parsing recovers a serialized well-formed graph exactly.
pub proof fn lemma_rels_rt(g: RelsView)
    requires
        g.wf(),
    ensures
        parse_rels(rels_xml(g)) == Some(g),
{
    let s = rels_xml(g);
    let body = rels_xml_items(g.rels) + rels_close();
    assert(s =~= rels_open() + body + Seq::<char>::empty());
    lemma_lit_at_concat(Seq::<char>::empty(), rels_open(), body);
    assert(Seq::<char>::empty() + rels_open() + body =~= s);
    lemma_rel_items_rt(g.rels, rels_open(), Seq::<char>::empty());
    assert(rels_open() + (rels_xml_items(g.rels) + rels_close()) + Seq::<char>::empty() =~= s);
}

/// Reads the allocator number off an id string, mirroring `rid_num`.
#[verifier::rlimit(100)]
pub fn rid_value(id: &str) -> (r: Option<u64>)
    ensures
        match r {
            Some(v) => rid_num(id@) == Some(v as nat),
            None => rid_num(id@) is None,
        },
{
    let n = id.unicode_len();
    if n <= 3 || n > 21 {
        return None;
    }
    if id.get_char(0) != 'r' || id.get_char(1) != 'I' || id.get_char(2) != 'd' {
        proof {
            if id@.subrange(0, 3) == rid_prefix() {
                assert(id@.subrange(0, 3)[0] == id@[0]);
                assert(id@.subrange(0, 3)[1] == id@[1]);
                assert(id@.subrange(0, 3)[2] == id@[2]);
            }
        }
        return None;
    }
    proof {
        assert(id@.subrange(0, 3) =~= rid_prefix());
    }
    let ghost suf = id@.skip(3);
    if n > 4 && id.get_char(3) == '0' {
        proof {
            assert(suf[0] == '0');
            assert(!canonical(suf));
        }
        return None;
    }
    let mut k: usize = 3;
    let mut acc: u64 = 0;
    proof {
        assert(id@.subrange(3, 3) =~= Seq::<char>::empty());
        lemma_pow10_18();
    }
    while k < n
        invariant
            3 <= k <= n,
            n == id@.len(),
            n <= 21,
            forall|t: int| 3 <= t < k ==> is_digit(#[trigger] id@[t]),
            acc as nat == val_of(id@.subrange(3, k as int)),
            acc < REL_ID_CAP,
            pow10(18) == REL_ID_CAP,
        decreases n - k,
    {
        let c = id.get_char(k);
        let d: u64 = if c == '0' { 0 }
        else if c == '1' { 1 }
        else if c == '2' { 2 }
        else if c == '3' { 3 }
        else if c == '4' { 4 }
        else if c == '5' { 5 }
        else if c == '6' { 6 }
        else if c == '7' { 7 }
        else if c == '8' { 8 }
        else if c == '9' { 9 }
        else {
            proof {
                assert(!is_digit(id@[k as int]));
                assert(id@.skip(3) =~= id@.subrange(3, n as int));
                assert(id@.skip(3)[k as int - 3] == id@[k as int]);
                assert(!canonical(id@.skip(3)));
            }
            return None;
        };
        proof {
            assert(d as nat == digit_val(id@[k as int]));
            let w = id@.subrange(3, k + 1);
            assert(w.drop_last() =~= id@.subrange(3, k as int));
            assert(w.last() == id@[k as int]);
            assert(val_of(w) == acc * 10 + d);
            assert(forall|t: int| 0 <= t < w.len() ==> is_digit(#[trigger] w[t]));
            lemma_val_bound(w, 18);
        }
        acc = acc * 10 + d;
        k += 1;
    }
    proof {
        assert(suf =~= id@.subrange(3, n as int));
        assert(forall|t: int| 0 <= t < suf.len() ==> is_digit(#[trigger] suf[t]));
        assert(canonical(suf));
        assert(rid_num(id@) == Some(val_of(suf)));
    }
    Some(acc)
}

/// Parses one entry at position `i`.
fn parse_rel_item_x(s: &str, i: usize) -> (r: Option<(Relationship, usize)>)
    ensures
        match r {
            Some(p) => parse_rel_item(s@, i as int) == Some((p.0@, p.1 as int)),
            None => parse_rel_item(s@, i as int) is None,
        },
{
    match quoted(s, i, "<Relationship Id=\"") {
        None => None,
        Some((id, j)) => match quoted(s, j, " Type=\"") {
            None => None,
            Some((ty, j2)) => match quoted(s, j2, " Target=\"") {
                None => None,
                Some((tg, j3)) => match lit_match(s, j3, "/>") {
                    None => None,
                    Some(e) => Some((Relationship { id: id, ty: ty, target: tg }, e)),
                },
            },
        },
    }
}

/// Parses the entry list up to and including the closing tag.
fn parse_rel_items_x(s: &str, i: usize) -> (r: Option<(Vec<Relationship>, usize)>)
    ensures
        match r {
            Some(p) => parse_rel_items(s@, i as int) == Some(
                (p.0@.map_values(|x: Relationship| x@), p.1 as int),
            ),
            None => parse_rel_items(s@, i as int) is None,
        },
    decreases s@.len() - i,
{
    let n = s.unicode_len();
    if i > n {
        return None;
    }
    match lit_match(s, i, "</Relationships>") {
        Some(e) => {
            let v: Vec<Relationship> = Vec::new();
            proof {
                assert(v@.map_values(|x: Relationship| x@) =~= Seq::<RelView>::empty());
            }
            Some((v, e))
        },
        None => match parse_rel_item_x(s, i) {
            None => None,
            Some((r0, j)) => {
                if !(i < j && j <= n) {
                    return None;
                }
                match parse_rel_items_x(s, j) {
                    None => None,
                    Some((mut v, e)) => {
                        let ghost tail = v@;
                        v.insert(0, r0);
                        proof {
                            assert(v@.map_values(|x: Relationship| x@) =~= seq![r0@]
                                + tail.map_values(|x: Relationship| x@));
                        }
                        Some((v, e))
                    },
                }
            },
        },
    }
}

impl Relationships {
    /// Parses a serialized graph, preserving externally assigned ids
    /// verbatim and starting the allocator above every numeric id seen.
    pub fn from_str(s: &str) -> (r: Result<Relationships, DocxError>)
        ensures
            match r {
                Ok(g) => parse_rels(s@) == Some(g@) && g@.wf(),
                Err(e) => parse_rels(s@) is None && e == DocxError::MalformedXml,
            },
    {
        let n = s.unicode_len();
        let j = match lit_match(
            s,
            0,
            "<Relationships xmlns=\"http://schemas.openxmlformats.org/package/2006/relationships\">",
        ) {
            None => {
                return Err(DocxError::MalformedXml);
            },
            Some(j) => j,
        };
        let (v, e) = match parse_rel_items_x(s, j) {
            None => {
                return Err(DocxError::MalformedXml);
            },
            Some(p) => p,
        };
        if e != n {
            return Err(DocxError::MalformedXml);
        }
        let ghost rs = v@.map_values(|x: Relationship| x@);
        let mut next: u64 = 1;
        let mut k: usize = 0;
        proof {
            assert(ids_of(rs.take(0)) =~= Seq::<Seq<char>>::empty());
            lemma_pow10_18();
        }
        while k < v.len()
            invariant
                k <= v.len(),
                rs == v@.map_values(|x: Relationship| x@),
                rs.len() == v@.len(),
                next as nat == next_after(ids_of(rs.take(k as int))),
                next <= REL_ID_CAP,
                pow10(18) == REL_ID_CAP,
            decreases v.len() - k,
        {
            let ghost pfx = ids_of(rs.take(k as int));
            match rid_value(v[k].id.as_str()) {
                Some(val) => {
                    proof {
                        lemma_rid_num_inv(v@[k as int].id@);
                    }
                    if val + 1 > next {
                        next = val + 1;
                    }
                },
                None => {},
            }
            proof {
                let pfx2 = ids_of(rs.take(k + 1));
                assert(pfx2.drop_last() =~= pfx);
                assert(pfx2.last() == rs[k as int].id);
                assert(rs[k as int].id == v@[k as int].id@);
            }
            k += 1;
        }
        proof {
            assert(rs.take(v@.len() as int) =~= rs);
        }
        Ok(Relationships { rels: v, next: next })
    }

    /// Decides whether the allocator agrees with the entries, so that a
    /// caller outside the proofs can test well-formedness before writing.
    pub fn allocator_consistent(&self) -> (r: bool)
        ensures
            r == self@.wf(),
    {
        let ghost rs = self@.rels;
        let mut next: u64 = 1;
        let mut k: usize = 0;
        proof {
            assert(ids_of(rs.take(0)) =~= Seq::<Seq<char>>::empty());
            lemma_pow10_18();
        }
        while k < self.rels.len()
            invariant
                k <= self.rels.len(),
                rs == self@.rels,
                rs.len() == self.rels@.len(),
                next as nat == next_after(ids_of(rs.take(k as int))),
                next <= REL_ID_CAP,
                pow10(18) == REL_ID_CAP,
            decreases self.rels.len() - k,
        {
            let ghost pfx = ids_of(rs.take(k as int));
            match rid_value(self.rels[k].id.as_str()) {
                Some(val) => {
                    proof {
                        lemma_rid_num_inv(self.rels@[k as int].id@);
                    }
                    if val + 1 > next {
                        next = val + 1;
                    }
                },
                None => {},
            }
            proof {
                let pfx2 = ids_of(rs.take(k + 1));
                assert(pfx2.drop_last() =~= pfx);
                assert(pfx2.last() == rs[k as int].id);
                assert(rs[k as int].id == self.rels@[k as int].id@);
            }
            k += 1;
        }
        proof {
            assert(rs.take(self.rels@.len() as int) =~= rs);
        }
        next == self.next
    }

    /// Allocates the next id, appends the entry, and returns the id.
    pub fn add_rel(&mut self, ty: &str, target: &str) -> (id: String)
        requires
            old(self)@.wf(),
            old(self)@.can_alloc(1),
        ensures
            final(self)@ == old(self)@.add(ty@, target@),
            final(self)@.wf(),
            id@ == old(self)@.fresh_id(),
    {
        let mut id = String::new();
        id.append("rId");
        proof {
            reveal_strlit("rId");
            assert("rId"@ =~= rid_prefix());
        }
        push_dec(&mut id, self.next);
        proof {
            assert(id@ =~= rid_str(self.next as nat));
        }
        let id2 = id.clone();
        self.rels.push(Relationship { id: id, ty: String::from_str(ty), target: String::from_str(target) });
        self.next = self.next + 1;
        proof {
            lemma_add_wf(old(self)@, ty@, target@);
            assert(self@.rels =~= old(self)@.add(ty@, target@).rels);
        }
        id2
    }

    /// Serializes the graph; entries keep their insertion order.
    pub fn to_xml(&self) -> (r: String)
        ensures
            r@ == rels_xml(self@),
    {
        let mut out = String::new();
        out.append(
            "<Relationships xmlns=\"http://schemas.openxmlformats.org/package/2006/relationships\">",
        );
        let ghost all = self@.rels;
        let mut i: usize = 0;
        while i < self.rels.len()
            invariant
                i <= self.rels.len(),
                all == self@.rels,
                all.len() == self.rels.len(),
                out@ == rels_open() + rels_xml_items(all.take(i as int)),
            decreases self.rels.len() - i,
        {
            let r = &self.rels[i];
            push_attr(&mut out, "<Relationship Id=\"", r.id.as_str());
            push_attr(&mut out, " Type=\"", r.ty.as_str());
            push_attr(&mut out, " Target=\"", r.target.as_str());
            out.append("/>");
            proof {
                lemma_rels_items_concat(all.take(i as int), seq![all[i as int]]);
                assert(all.take(i + 1) =~= all.take(i as int) + seq![all[i as int]]);
                assert(seq![all[i as int]].skip(1) =~= Seq::<RelView>::empty());
                assert(rels_xml_items(seq![all[i as int]]) == rel_xml(all[i as int])
                    + rels_xml_items(Seq::<RelView>::empty()));
                assert(rel_xml(all[i as int]) + Seq::<char>::empty() =~= rel_xml(all[i as int]));
                assert(out@ =~= rels_open() + rels_xml_items(all.take(i + 1)));
            }
            i += 1;
        }
        out.append("</Relationships>");
        proof {
            assert(all.take(all.len() as int) =~= all);
            assert(out@ =~= rels_xml(self@));
        }
        out
    }
}

} // verus!
