//! The calculator state and the save document, written as JSON text.
use vstd::prelude::*;
use vstd::string::StringExecFns;
use crate::desmos::{Expression, ExpressionModel};
use crate::json::{
    expect_at, lemma_expect, lemma_int_at, lemma_nat_at, lemma_string_at, pos_of, push_quoted,
    quoted, read_int_at, read_nat_at, read_string_at, then_expect, then_int, then_nat,
    then_string, value_of,
};
use crate::text::{chars_of, decimal, push_decimal, push_signed_decimal, signed_decimal};

verus! {

/// Version number of the calculator state format.
pub const CALC_VERSION: u32 = 9;

/// Half the side of the fixed square viewport.
pub const VIEW_HALF: i64 = 170;

/// The visible region of the graph.
#[derive(Debug, PartialEq, Eq, Structural, Clone, Copy)]
pub struct Viewport {
    pub xmin: i64,
    pub xmax: i64,
    pub ymin: i64,
    pub ymax: i64,
}

/// The fixed viewport, the same for every image.
pub fn default_viewport() -> (v: Viewport)
    ensures
        v.xmin == -VIEW_HALF && v.xmax == VIEW_HALF && v.ymin == -VIEW_HALF && v.ymax == VIEW_HALF,
{
    Viewport { xmin: -VIEW_HALF, xmax: VIEW_HALF, ymin: -VIEW_HALF, ymax: VIEW_HALF }
}

/// The calculator state: format version, random seed, viewport and expressions.
#[derive(Debug)]
pub struct CalcState {
    pub version: u32,
    pub random_seed: String,
    pub viewport: Viewport,
    pub expressions: Vec<Expression>,
}

/// The document the calculator service stores. `calc_state` holds the
/// calculator state as JSON text, embedded as a string.
#[derive(Debug)]
pub struct SaveDocument {
    pub thumb_data: String,
    pub calc_state: String,
    pub is_update: bool,
    pub lang: String,
    pub my_graphs: bool,
    pub graph_hash: String,
}

/// Thumbnail, calculator state, update flag, language, my-graphs flag, hash.
pub type DocumentModel = (Seq<char>, Seq<char>, bool, Seq<char>, bool, Seq<char>);

impl View for SaveDocument {
    type V = DocumentModel;

    open spec fn view(&self) -> DocumentModel {
        (self.thumb_data@, self.calc_state@, self.is_update, self.lang@, self.my_graphs, self.graph_hash@)
    }
}

/// Version, random seed, viewport and the expressions' models.
pub type CalcModel = (u32, Seq<char>, Viewport, Seq<ExpressionModel>);

pub open spec fn models(es: Seq<Expression>) -> Seq<ExpressionModel> {
    es.map_values(|e: Expression| e@)
}

impl View for CalcState {
    type V = CalcModel;

    open spec fn view(&self) -> CalcModel {
        (self.version, self.random_seed@, self.viewport, models(self.expressions@))
    }
}

#[verifier::opaque]
pub open spec fn expression_json(m: ExpressionModel) -> Seq<char> {
    "{\"type\":"@ + quoted(m.0) + ",\"id\":"@ + decimal(m.1 as nat) + ",\"color\":"@ + quoted(m.2)
        + ",\"latex\":"@ + quoted(m.3) + ",\"fillOpacity\":"@ + quoted(m.4) + ",\"lineOpacity\":"@
        + quoted(m.5) + ",\"lineWidth\":"@ + quoted(m.6) + "}"@
}

/// Each expression preceded by a comma.
pub open spec fn more_json(es: Seq<ExpressionModel>) -> Seq<char>
    decreases es.len(),
{
    if es.len() == 0 {
        seq![]
    } else {
        ","@ + expression_json(es[0]) + more_json(es.drop_first())
    }
}

/// The expressions as a JSON array.
pub open spec fn list_json(es: Seq<ExpressionModel>) -> Seq<char> {
    if es.len() == 0 {
        "["@ + "]"@
    } else {
        "["@ + expression_json(es[0]) + more_json(es.drop_first()) + "]"@
    }
}

pub open spec fn calc_state_json(c: CalcModel) -> Seq<char> {
    "{\"version\":"@ + decimal(c.0 as nat) + ",\"randomSeed\":"@ + quoted(c.1)
        + ",\"graph\":{\"viewport\":{\"xmin\":"@ + signed_decimal(c.2.xmin as int) + ",\"xmax\":"@
        + signed_decimal(c.2.xmax as int) + ",\"ymin\":"@ + signed_decimal(c.2.ymin as int)
        + ",\"ymax\":"@ + signed_decimal(c.2.ymax as int) + "}},\"expressions\":{\"list\":"@
        + list_json(c.3) + "}}"@
}

proof fn lemma_more_push(x: Seq<ExpressionModel>, e: ExpressionModel)
    ensures
        more_json(x.push(e)) == more_json(x) + ","@ + expression_json(e),
    decreases x.len(),
{
    if x.len() == 0 {
        assert(x.push(e).drop_first() =~= Seq::<ExpressionModel>::empty());
        assert(x.push(e)[0] == e);
        assert(more_json(Seq::<ExpressionModel>::empty()) =~= Seq::<char>::empty());
        assert(more_json(x) =~= Seq::<char>::empty());
        assert(more_json(x.push(e)) =~= more_json(x) + ","@ + expression_json(e));
    } else {
        assert(x.push(e).drop_first() =~= x.drop_first().push(e));
        assert(x.push(e)[0] == x[0]);
        lemma_more_push(x.drop_first(), e);
        assert(more_json(x.push(e)) =~= more_json(x) + ","@ + expression_json(e));
    }
}

/// The text of a flag, written as a JSON string.
pub open spec fn flag_text(b: bool) -> Seq<char> {
    if b {
        "true"@
    } else {
        "false"@
    }
}

pub open spec fn flag_of(t: Seq<char>) -> Option<bool> {
    if t == "true"@ {
        Some(true)
    } else if t == "false"@ {
        Some(false)
    } else {
        None
    }
}

pub open spec fn document_json(m: DocumentModel) -> Seq<char> {
    "{\"thumb_data\":"@ + quoted(m.0) + ",\"calc_state\":"@ + quoted(m.1) + ",\"is_update\":"@
        + quoted(flag_text(m.2)) + ",\"lang\":"@ + quoted(m.3) + ",\"my_graphs\":"@ + quoted(
        flag_text(m.4),
    ) + ",\"graph_hash\":"@ + quoted(m.5) + "}"@
}

/// Reads a save document written in the form `document_json` gives.
pub open spec fn parse_document(s: Seq<char>) -> Option<DocumentModel> {
    let thumb = then_string(s, then_expect(s, Some(0int), "{\"thumb_data\":"@));
    let calc = then_string(s, then_expect(s, pos_of(thumb), ",\"calc_state\":"@));
    let update = then_string(s, then_expect(s, pos_of(calc), ",\"is_update\":"@));
    let lang = then_string(s, then_expect(s, pos_of(update), ",\"lang\":"@));
    let mine = then_string(s, then_expect(s, pos_of(lang), ",\"my_graphs\":"@));
    let hash = then_string(s, then_expect(s, pos_of(mine), ",\"graph_hash\":"@));
    let end = then_expect(s, pos_of(hash), "}"@);
    if thumb is Some && calc is Some && update is Some && flag_of(value_of(update)) is Some
        && lang is Some && mine is Some && flag_of(value_of(mine)) is Some && hash is Some
        && end == Some(s.len() as int) {
        Some(
            (
                value_of(thumb),
                value_of(calc),
                flag_of(value_of(update))->0,
                value_of(lang),
                flag_of(value_of(mine))->0,
                value_of(hash),
            ),
        )
    } else {
        None
    }
}

proof fn lemma_assoc(a: Seq<char>, b: Seq<char>, c: Seq<char>)
    ensures
        (a + b) + c == a + (b + c),
{
    assert((a + b) + c =~= a + (b + c));
}

proof fn lemma_flag_round_trip(b: bool)
    ensures
        flag_of(flag_text(b)) == Some(b),
{
    reveal_strlit("true");
    reveal_strlit("false");
    assert("true"@.len() != "false"@.len());
}

/// Writing a save document and reading it back gives the same document.
pub proof fn lemma_document_round_trip(m: DocumentModel)
    ensures
        parse_document(document_json(m)) == Some(m),
{
    let l1 = "{\"thumb_data\":"@;
    let l2 = ",\"calc_state\":"@;
    let l3 = ",\"is_update\":"@;
    let l4 = ",\"lang\":"@;
    let l5 = ",\"my_graphs\":"@;
    let l6 = ",\"graph_hash\":"@;
    let l7 = "}"@;
    let q0 = quoted(m.0);
    let q1 = quoted(m.1);
    let q2 = quoted(flag_text(m.2));
    let q3 = quoted(m.3);
    let q4 = quoted(flag_text(m.4));
    let q5 = quoted(m.5);
    let s = document_json(m);
    let a0 = Seq::<char>::empty();
    let a1 = a0 + l1;
    let a2 = a1 + q0;
    let a3 = a2 + l2;
    let a4 = a3 + q1;
    let a5 = a4 + l3;
    let a6 = a5 + q2;
    let a7 = a6 + l4;
    let a8 = a7 + q3;
    let a9 = a8 + l5;
    let a10 = a9 + q4;
    let a11 = a10 + l6;
    let a12 = a11 + q5;
    let r13 = Seq::<char>::empty();
    let r12 = l7 + r13;
    let r11 = q5 + r12;
    let r10 = l6 + r11;
    let r9 = q4 + r10;
    let r8 = l5 + r9;
    let r7 = q3 + r8;
    let r6 = l4 + r7;
    let r5 = q2 + r6;
    let r4 = l3 + r5;
    let r3 = q1 + r4;
    let r2 = l2 + r3;
    let r1 = q0 + r2;
    let r0 = l1 + r1;
    assert(s =~= a12 + r12);
    lemma_assoc(a11, q5, r12);
    assert(s == a11 + r11);
    lemma_assoc(a10, l6, r11);
    assert(s == a10 + r10);
    lemma_assoc(a9, q4, r10);
    assert(s == a9 + r9);
    lemma_assoc(a8, l5, r9);
    assert(s == a8 + r8);
    lemma_assoc(a7, q3, r8);
    assert(s == a7 + r7);
    lemma_assoc(a6, l4, r7);
    assert(s == a6 + r6);
    lemma_assoc(a5, q2, r6);
    assert(s == a5 + r5);
    lemma_assoc(a4, l3, r5);
    assert(s == a4 + r4);
    lemma_assoc(a3, q1, r4);
    assert(s == a3 + r3);
    lemma_assoc(a2, l2, r3);
    assert(s == a2 + r2);
    lemma_assoc(a1, q0, r2);
    assert(s == a1 + r1);
    lemma_assoc(a0, l1, r1);
    assert(s == a0 + r0);
    lemma_expect(a0, l1, r1);
    lemma_string_at(a1, m.0, r2);
    lemma_expect(a2, l2, r3);
    lemma_string_at(a3, m.1, r4);
    lemma_expect(a4, l3, r5);
    lemma_string_at(a5, flag_text(m.2), r6);
    lemma_expect(a6, l4, r7);
    lemma_string_at(a7, m.3, r8);
    lemma_expect(a8, l5, r9);
    lemma_string_at(a9, flag_text(m.4), r10);
    lemma_expect(a10, l6, r11);
    lemma_string_at(a11, m.5, r12);
    lemma_expect(a12, l7, r13);
    assert(a0 + r0 =~= s);
    lemma_flag_round_trip(m.2);
    lemma_flag_round_trip(m.4);
}

fn push_flag(s: &mut String, b: bool)
    ensures
        final(s)@ == old(s)@ + quoted(flag_text(b)),
{
    if b {
        push_quoted(s, "true");
    } else {
        push_quoted(s, "false");
    }
}

/// Writes a save document as JSON text.
pub fn encode_document(d: &SaveDocument) -> (r: String)
    ensures
        r@ == document_json(d@),
{
    let mut s = String::from_str("{\"thumb_data\":");
    push_quoted(&mut s, d.thumb_data.as_str());
    s.append(",\"calc_state\":");
    push_quoted(&mut s, d.calc_state.as_str());
    s.append(",\"is_update\":");
    push_flag(&mut s, d.is_update);
    s.append(",\"lang\":");
    push_quoted(&mut s, d.lang.as_str());
    s.append(",\"my_graphs\":");
    push_flag(&mut s, d.my_graphs);
    s.append(",\"graph_hash\":");
    push_quoted(&mut s, d.graph_hash.as_str());
    s.append("}");
    s
}

fn read_flag(t: &String) -> (r: Option<bool>)
    ensures
        r == flag_of(t@),
{
    if crate::desmos::same_text(t.as_str(), "true") {
        Some(true)
    } else if crate::desmos::same_text(t.as_str(), "false") {
        Some(false)
    } else {
        None
    }
}

/// Reads a save document from JSON text in the form `encode_document` writes.
pub fn decode_document(text: &str) -> (r: Option<SaveDocument>)
    ensures
        r is Some <==> parse_document(text@) is Some,
        r matches Some(d) ==> parse_document(text@) == Some(d@),
{
    let s = chars_of(text);
    let p1 = expect_at(&s, 0, "{\"thumb_data\":")?;
    let (thumb_data, p2) = read_string_at(&s, p1)?;
    let p3 = expect_at(&s, p2, ",\"calc_state\":")?;
    let (calc_state, p4) = read_string_at(&s, p3)?;
    let p5 = expect_at(&s, p4, ",\"is_update\":")?;
    let (upd, p6) = read_string_at(&s, p5)?;
    let p7 = expect_at(&s, p6, ",\"lang\":")?;
    let (lang, p8) = read_string_at(&s, p7)?;
    let p9 = expect_at(&s, p8, ",\"my_graphs\":")?;
    let (mine, p10) = read_string_at(&s, p9)?;
    let p11 = expect_at(&s, p10, ",\"graph_hash\":")?;
    let (graph_hash, p12) = read_string_at(&s, p11)?;
    let end = expect_at(&s, p12, "}")?;
    if end != s.len() {
        return None;
    }
    let is_update = read_flag(&upd)?;
    let my_graphs = read_flag(&mine)?;
    Some(SaveDocument { thumb_data, calc_state, is_update, lang, my_graphs, graph_hash })
}

/// Writes one expression as a JSON object.
pub fn push_expression(s: &mut String, e: &Expression)
    ensures
        final(s)@ == old(s)@ + expression_json(e@),
{
    s.append("{\"type\":");
    push_quoted(s, e.kind.as_str());
    s.append(",\"id\":");
    push_decimal(s, e.id as u64);
    s.append(",\"color\":");
    push_quoted(s, e.color.as_str());
    s.append(",\"latex\":");
    push_quoted(s, e.latex.as_str());
    s.append(",\"fillOpacity\":");
    push_quoted(s, e.fill_opacity.as_str());
    s.append(",\"lineOpacity\":");
    push_quoted(s, e.line_opacity.as_str());
    s.append(",\"lineWidth\":");
    push_quoted(s, e.line_width.as_str());
    s.append("}");
    reveal(expression_json);
    assert(final(s)@ =~= old(s)@ + expression_json(e@));
}

/// Writes the calculator state as JSON text.
pub fn encode_calc_state(c: &CalcState) -> (r: String)
    ensures
        r@ == calc_state_json(c@),
{
    let mut s = String::from_str("{\"version\":");
    push_decimal(&mut s, c.version as u64);
    s.append(",\"randomSeed\":");
    push_quoted(&mut s, c.random_seed.as_str());
    s.append(",\"graph\":{\"viewport\":{\"xmin\":");
    push_signed_decimal(&mut s, c.viewport.xmin);
    s.append(",\"xmax\":");
    push_signed_decimal(&mut s, c.viewport.xmax);
    s.append(",\"ymin\":");
    push_signed_decimal(&mut s, c.viewport.ymin);
    s.append(",\"ymax\":");
    push_signed_decimal(&mut s, c.viewport.ymax);
    s.append("}},\"expressions\":{\"list\":");
    s.append("[");
    let ghost head = s@;
    let ghost ms = models(c.expressions@);
    let es = &c.expressions;
    if es.len() > 0 {
        push_expression(&mut s, &es[0]);
        let mut i: usize = 1;
        assert(ms.subrange(1, 1) =~= Seq::<ExpressionModel>::empty());
        while i < es.len()
            invariant
                es@ == c.expressions@,
                ms == models(es@),
                1 <= i <= es@.len(),
                s@ == head + expression_json(ms[0]) + more_json(ms.subrange(1, i as int)),
            decreases es@.len() - i,
        {
            s.append(",");
            push_expression(&mut s, &es[i]);
            proof {
                lemma_more_push(ms.subrange(1, i as int), ms[i as int]);
                assert(ms.subrange(1, i as int).push(ms[i as int]) =~= ms.subrange(1, i as int + 1));
            }
            assert(s@ =~= head + expression_json(ms[0]) + more_json(ms.subrange(1, i as int + 1)));
            i = i + 1;
        }
        assert(ms.subrange(1, ms.len() as int) =~= ms.drop_first());
    }
    s.append("]");
    s.append("}}");
    assert(s@ =~= calc_state_json(c@));
    s
}

/// The array of expressions at the position `p`, if there is one.
pub open spec fn then_list(s: Seq<char>, p: Option<int>) -> Option<(Seq<ExpressionModel>, int)> {
    match p {
        Some(q) => parse_list(s, q),
        None => None,
    }
}

/// The models read before a reading of the rest of an array.
pub open spec fn after_models(
    pre: Seq<ExpressionModel>,
    o: Option<(Seq<ExpressionModel>, int)>,
) -> Option<(Seq<ExpressionModel>, int)> {
    match o {
        Some((es, q)) => Some((pre + es, q)),
        None => None,
    }
}

/// Reads the rest of an array after its first element: comma and element
/// while they come, then the closing bracket.
pub open spec fn parse_more(s: Seq<char>, pos: int) -> Option<(Seq<ExpressionModel>, int)>
    decreases s.len() - pos,
{
    if 0 <= pos < s.len() && s[pos] == ']' {
        Some((seq![], pos + 1))
    } else if 0 <= pos < s.len() && s[pos] == ',' {
        match parse_expression_at(s, pos + 1) {
            Some((e, p)) => if pos < p <= s.len() {
                after_models(seq![e], parse_more(s, p))
            } else {
                None
            },
            None => None,
        }
    } else {
        None
    }
}

/// Reads an array of expressions at `pos` of `s`.
#[verifier::opaque]
pub open spec fn parse_list(s: Seq<char>, pos: int) -> Option<(Seq<ExpressionModel>, int)> {
    if 0 <= pos && pos + 1 < s.len() && s[pos] == '[' {
        if s[pos + 1] == ']' {
            Some((seq![], pos + 2))
        } else {
            match parse_expression_at(s, pos + 1) {
                Some((e, p)) => after_models(seq![e], parse_more(s, p)),
                None => None,
            }
        }
    } else {
        None
    }
}

/// Reads an expression object at `pos` of `s`: its model and the position after it.
#[verifier::opaque]
pub open spec fn parse_expression_at(s: Seq<char>, pos: int) -> Option<(ExpressionModel, int)> {
    let kind = then_string(s, then_expect(s, Some(pos), "{\"type\":"@));
    let id = then_nat(s, then_expect(s, pos_of(kind), ",\"id\":"@));
    let color = then_string(s, then_expect(s, pos_of(id), ",\"color\":"@));
    let latex = then_string(s, then_expect(s, pos_of(color), ",\"latex\":"@));
    let fill_opacity = then_string(s, then_expect(s, pos_of(latex), ",\"fillOpacity\":"@));
    let line_opacity = then_string(s, then_expect(s, pos_of(fill_opacity), ",\"lineOpacity\":"@));
    let line_width = then_string(s, then_expect(s, pos_of(line_opacity), ",\"lineWidth\":"@));
    let end = then_expect(s, pos_of(line_width), "}"@);
    if kind is Some
        && id is Some
        && value_of(id) <= usize::MAX
        && color is Some
        && latex is Some
        && fill_opacity is Some
        && line_opacity is Some
        && line_width is Some
        && end is Some {
        Some(((value_of(kind), value_of(id) as usize, value_of(color), value_of(latex), value_of(fill_opacity), value_of(line_opacity), value_of(line_width)), end->0))
    } else {
        None
    }
}

/// Reads a calculator state written in the form `calc_state_json` gives.
pub open spec fn parse_calc_state(s: Seq<char>) -> Option<CalcModel> {
    let pos = 0int;
    let version = then_nat(s, then_expect(s, Some(pos), "{\"version\":"@));
    let random_seed = then_string(s, then_expect(s, pos_of(version), ",\"randomSeed\":"@));
    let xmin = then_int(s, then_expect(s, pos_of(random_seed), ",\"graph\":{\"viewport\":{\"xmin\":"@));
    let xmax = then_int(s, then_expect(s, pos_of(xmin), ",\"xmax\":"@));
    let ymin = then_int(s, then_expect(s, pos_of(xmax), ",\"ymin\":"@));
    let ymax = then_int(s, then_expect(s, pos_of(ymin), ",\"ymax\":"@));
    let expressions = then_list(s, then_expect(s, pos_of(ymax), "}},\"expressions\":{\"list\":"@));
    let end = then_expect(s, pos_of(expressions), "}}"@);
    if version is Some
        && value_of(version) <= u32::MAX
        && random_seed is Some
        && xmin is Some
        && i64::MIN <= value_of(xmin) <= i64::MAX
        && xmax is Some
        && i64::MIN <= value_of(xmax) <= i64::MAX
        && ymin is Some
        && i64::MIN <= value_of(ymin) <= i64::MAX
        && ymax is Some
        && i64::MIN <= value_of(ymax) <= i64::MAX
        && expressions is Some
        && end == Some(s.len() as int) {
        let viewport = Viewport {
            xmin: value_of(xmin) as i64,
            xmax: value_of(xmax) as i64,
            ymin: value_of(ymin) as i64,
            ymax: value_of(ymax) as i64,
        };
        Some((value_of(version) as u32, value_of(random_seed), viewport, value_of(expressions)))
    } else {
        None
    }
}

/// An expression written at the end of `a` is read back from there.
pub proof fn lemma_expression_round_trip(a: Seq<char>, m: ExpressionModel, rest: Seq<char>)
    ensures
        parse_expression_at(a + expression_json(m) + rest, a.len() as int) == Some((m, a.len() + expression_json(m).len() as int)),
{
    reveal(parse_expression_at);
    let s = a + expression_json(m) + rest;
    // The text is cut into pieces x0, x1, ...: a_k is the text before piece k,
    // r_k the text from piece k on, j_k the first k pieces alone.
    let a0 = a;
    let x0 = "{\"type\":"@;
    let x1 = quoted(m.0);
    let x2 = ",\"id\":"@;
    let x3 = decimal(m.1 as nat);
    let x4 = ",\"color\":"@;
    let x5 = quoted(m.2);
    let x6 = ",\"latex\":"@;
    let x7 = quoted(m.3);
    let x8 = ",\"fillOpacity\":"@;
    let x9 = quoted(m.4);
    let x10 = ",\"lineOpacity\":"@;
    let x11 = quoted(m.5);
    let x12 = ",\"lineWidth\":"@;
    let x13 = quoted(m.6);
    let x14 = "}"@;
    let a1 = a0 + x0;
    let a2 = a1 + x1;
    let a3 = a2 + x2;
    let a4 = a3 + x3;
    let a5 = a4 + x4;
    let a6 = a5 + x5;
    let a7 = a6 + x6;
    let a8 = a7 + x7;
    let a9 = a8 + x8;
    let a10 = a9 + x9;
    let a11 = a10 + x10;
    let a12 = a11 + x11;
    let a13 = a12 + x12;
    let a14 = a13 + x13;
    let a15 = a14 + x14;
    let r15 = rest;
    let r14 = x14 + r15;
    let r13 = x13 + r14;
    let r12 = x12 + r13;
    let r11 = x11 + r12;
    let r10 = x10 + r11;
    let r9 = x9 + r10;
    let r8 = x8 + r9;
    let r7 = x7 + r8;
    let r6 = x6 + r7;
    let r5 = x5 + r6;
    let r4 = x4 + r5;
    let r3 = x3 + r4;
    let r2 = x2 + r3;
    let r1 = x1 + r2;
    let r0 = x0 + r1;
    let j0 = Seq::<char>::empty();
    let j1 = j0 + x0;
    let j2 = j1 + x1;
    let j3 = j2 + x2;
    let j4 = j3 + x3;
    let j5 = j4 + x4;
    let j6 = j5 + x5;
    let j7 = j6 + x6;
    let j8 = j7 + x7;
    let j9 = j8 + x8;
    let j10 = j9 + x9;
    let j11 = j10 + x10;
    let j12 = j11 + x11;
    let j13 = j12 + x12;
    let j14 = j13 + x13;
    let j15 = j14 + x14;
    assert(a + j0 =~= a0);
    assert(j1 =~= x0);
    lemma_assoc(a, j1, x1);
    lemma_assoc(a, j2, x2);
    lemma_assoc(a, j3, x3);
    lemma_assoc(a, j4, x4);
    lemma_assoc(a, j5, x5);
    lemma_assoc(a, j6, x6);
    lemma_assoc(a, j7, x7);
    lemma_assoc(a, j8, x8);
    lemma_assoc(a, j9, x9);
    lemma_assoc(a, j10, x10);
    lemma_assoc(a, j11, x11);
    lemma_assoc(a, j12, x12);
    lemma_assoc(a, j13, x13);
    lemma_assoc(a, j14, x14);
    assert(expression_json(m) == j15) by {
        reveal(expression_json);
    }
    lemma_assoc(a14, x14, r15);
    lemma_assoc(a13, x13, r14);
    lemma_assoc(a12, x12, r13);
    lemma_assoc(a11, x11, r12);
    lemma_assoc(a10, x10, r11);
    lemma_assoc(a9, x9, r10);
    lemma_assoc(a8, x8, r9);
    lemma_assoc(a7, x7, r8);
    lemma_assoc(a6, x6, r7);
    lemma_assoc(a5, x5, r6);
    lemma_assoc(a4, x4, r5);
    lemma_assoc(a3, x3, r4);
    lemma_assoc(a2, x2, r3);
    lemma_assoc(a1, x1, r2);
    lemma_assoc(a0, x0, r1);
    lemma_expect(a0, x0, r1);
    lemma_string_at(a1, m.0, r2);
    lemma_expect(a2, x2, r3);
    reveal_strlit(",\"color\":");
    assert(r4[0] == x4[0]);
    lemma_nat_at(a3, m.1 as nat, r4);
    lemma_expect(a4, x4, r5);
    lemma_string_at(a5, m.2, r6);
    lemma_expect(a6, x6, r7);
    lemma_string_at(a7, m.3, r8);
    lemma_expect(a8, x8, r9);
    lemma_string_at(a9, m.4, r10);
    lemma_expect(a10, x10, r11);
    lemma_string_at(a11, m.5, r12);
    lemma_expect(a12, x12, r13);
    lemma_string_at(a13, m.6, r14);
    lemma_expect(a14, x14, r15);
}

/// Writing a calculator state and reading it back gives the same state.
#[verifier::rlimit(50)]
pub proof fn lemma_calc_state_round_trip(m: CalcModel)
    ensures
        parse_calc_state(calc_state_json(m)) == Some(m),
{
    let a = Seq::<char>::empty();
    let rest = Seq::<char>::empty();
    let s = a + calc_state_json(m) + rest;
    // The text is cut into pieces x0, x1, ...: a_k is the text before piece k,
    // r_k the text from piece k on, j_k the first k pieces alone.
    let a0 = a;
    let x0 = "{\"version\":"@;
    let x1 = decimal(m.0 as nat);
    let x2 = ",\"randomSeed\":"@;
    let x3 = quoted(m.1);
    let x4 = ",\"graph\":{\"viewport\":{\"xmin\":"@;
    let x5 = signed_decimal(m.2.xmin as int);
    let x6 = ",\"xmax\":"@;
    let x7 = signed_decimal(m.2.xmax as int);
    let x8 = ",\"ymin\":"@;
    let x9 = signed_decimal(m.2.ymin as int);
    let x10 = ",\"ymax\":"@;
    let x11 = signed_decimal(m.2.ymax as int);
    let x12 = "}},\"expressions\":{\"list\":"@;
    let x13 = list_json(m.3);
    let x14 = "}}"@;
    let a1 = a0 + x0;
    let a2 = a1 + x1;
    let a3 = a2 + x2;
    let a4 = a3 + x3;
    let a5 = a4 + x4;
    let a6 = a5 + x5;
    let a7 = a6 + x6;
    let a8 = a7 + x7;
    let a9 = a8 + x8;
    let a10 = a9 + x9;
    let a11 = a10 + x10;
    let a12 = a11 + x11;
    let a13 = a12 + x12;
    let a14 = a13 + x13;
    let a15 = a14 + x14;
    let r15 = rest;
    let r14 = x14 + r15;
    let r13 = x13 + r14;
    let r12 = x12 + r13;
    let r11 = x11 + r12;
    let r10 = x10 + r11;
    let r9 = x9 + r10;
    let r8 = x8 + r9;
    let r7 = x7 + r8;
    let r6 = x6 + r7;
    let r5 = x5 + r6;
    let r4 = x4 + r5;
    let r3 = x3 + r4;
    let r2 = x2 + r3;
    let r1 = x1 + r2;
    let r0 = x0 + r1;
    let j0 = Seq::<char>::empty();
    let j1 = j0 + x0;
    let j2 = j1 + x1;
    let j3 = j2 + x2;
    let j4 = j3 + x3;
    let j5 = j4 + x4;
    let j6 = j5 + x5;
    let j7 = j6 + x6;
    let j8 = j7 + x7;
    let j9 = j8 + x8;
    let j10 = j9 + x9;
    let j11 = j10 + x10;
    let j12 = j11 + x11;
    let j13 = j12 + x12;
    let j14 = j13 + x13;
    let j15 = j14 + x14;
    assert(a + j0 =~= a0);
    assert(j1 =~= x0);
    lemma_assoc(a, j1, x1);
    lemma_assoc(a, j2, x2);
    lemma_assoc(a, j3, x3);
    lemma_assoc(a, j4, x4);
    lemma_assoc(a, j5, x5);
    lemma_assoc(a, j6, x6);
    lemma_assoc(a, j7, x7);
    lemma_assoc(a, j8, x8);
    lemma_assoc(a, j9, x9);
    lemma_assoc(a, j10, x10);
    lemma_assoc(a, j11, x11);
    lemma_assoc(a, j12, x12);
    lemma_assoc(a, j13, x13);
    lemma_assoc(a, j14, x14);
    assert(calc_state_json(m) == j15);
    lemma_assoc(a14, x14, r15);
    lemma_assoc(a13, x13, r14);
    lemma_assoc(a12, x12, r13);
    lemma_assoc(a11, x11, r12);
    lemma_assoc(a10, x10, r11);
    lemma_assoc(a9, x9, r10);
    lemma_assoc(a8, x8, r9);
    lemma_assoc(a7, x7, r8);
    lemma_assoc(a6, x6, r7);
    lemma_assoc(a5, x5, r6);
    lemma_assoc(a4, x4, r5);
    lemma_assoc(a3, x3, r4);
    lemma_assoc(a2, x2, r3);
    lemma_assoc(a1, x1, r2);
    lemma_assoc(a0, x0, r1);
    lemma_expect(a0, x0, r1);
    reveal_strlit(",\"randomSeed\":");
    assert(r2[0] == x2[0]);
    lemma_nat_at(a1, m.0 as nat, r2);
    lemma_expect(a2, x2, r3);
    lemma_string_at(a3, m.1, r4);
    lemma_expect(a4, x4, r5);
    reveal_strlit(",\"xmax\":");
    assert(r6[0] == x6[0]);
    lemma_int_at(a5, m.2.xmin as int, r6);
    lemma_expect(a6, x6, r7);
    reveal_strlit(",\"ymin\":");
    assert(r8[0] == x8[0]);
    lemma_int_at(a7, m.2.xmax as int, r8);
    lemma_expect(a8, x8, r9);
    reveal_strlit(",\"ymax\":");
    assert(r10[0] == x10[0]);
    lemma_int_at(a9, m.2.ymin as int, r10);
    lemma_expect(a10, x10, r11);
    reveal_strlit("}},\"expressions\":{\"list\":");
    assert(r12[0] == x12[0]);
    lemma_int_at(a11, m.2.ymax as int, r12);
    lemma_expect(a12, x12, r13);
    lemma_list_round_trip(a13, m.3, r14);
    lemma_expect(a14, x14, r15);
    assert(a + calc_state_json(m) + rest =~= calc_state_json(m));
}

/// Reads the expression object at `pos` of `s`.
pub fn read_expression_at(s: &Vec<char>, pos: usize) -> (r: Option<(Expression, usize)>)
    ensures
        r is Some <==> parse_expression_at(s@, pos as int) is Some,
        r matches Some((e, p)) ==> parse_expression_at(s@, pos as int) == Some((e@, p as int)),
{
    reveal(parse_expression_at);
    let p1 = expect_at(s, pos, "{\"type\":")?;
    let (kind, p2) = read_string_at(s, p1)?;
    let p3 = expect_at(s, p2, ",\"id\":")?;
    let (id, p4) = read_nat_at(s, p3, usize::MAX as u64)?;
    let p5 = expect_at(s, p4, ",\"color\":")?;
    let (color, p6) = read_string_at(s, p5)?;
    let p7 = expect_at(s, p6, ",\"latex\":")?;
    let (latex, p8) = read_string_at(s, p7)?;
    let p9 = expect_at(s, p8, ",\"fillOpacity\":")?;
    let (fill_opacity, p10) = read_string_at(s, p9)?;
    let p11 = expect_at(s, p10, ",\"lineOpacity\":")?;
    let (line_opacity, p12) = read_string_at(s, p11)?;
    let p13 = expect_at(s, p12, ",\"lineWidth\":")?;
    let (line_width, p14) = read_string_at(s, p13)?;
    let p15 = expect_at(s, p14, "}")?;
    Some((Expression { kind, id: id as usize, color, latex, fill_opacity, line_opacity, line_width }, p15))
}

/// Reads a calculator state from JSON text in the form `encode_calc_state` writes.
pub fn decode_calc_state(text: &str) -> (r: Option<CalcState>)
    ensures
        r is Some <==> parse_calc_state(text@) is Some,
        r matches Some(c) ==> parse_calc_state(text@) == Some(c@),
{
    let chars = chars_of(text);
    let s = &chars;
    let pos: usize = 0;
    let p1 = expect_at(s, pos, "{\"version\":")?;
    let (version, p2) = read_nat_at(s, p1, u32::MAX as u64)?;
    let p3 = expect_at(s, p2, ",\"randomSeed\":")?;
    let (random_seed, p4) = read_string_at(s, p3)?;
    let p5 = expect_at(s, p4, ",\"graph\":{\"viewport\":{\"xmin\":")?;
    let (xmin, p6) = read_int_at(s, p5)?;
    let p7 = expect_at(s, p6, ",\"xmax\":")?;
    let (xmax, p8) = read_int_at(s, p7)?;
    let p9 = expect_at(s, p8, ",\"ymin\":")?;
    let (ymin, p10) = read_int_at(s, p9)?;
    let p11 = expect_at(s, p10, ",\"ymax\":")?;
    let (ymax, p12) = read_int_at(s, p11)?;
    let p13 = expect_at(s, p12, "}},\"expressions\":{\"list\":")?;
    let (expressions, p14) = read_list_at(s, p13)?;
    let p15 = expect_at(s, p14, "}}")?;
    if p15 != s.len() {
        return None;
    }
    let viewport = Viewport { xmin, xmax, ymin, ymax };
    Some(CalcState { version: version as u32, random_seed, viewport, expressions })
}

proof fn lemma_more_round_trip(a: Seq<char>, es: Seq<ExpressionModel>, rest: Seq<char>)
    requires
        rest.len() > 0 && rest[0] == ']',
    ensures
        parse_more(a + more_json(es) + rest, a.len() as int) == Some((es, a.len() + more_json(es).len() as int + 1)),
    decreases es.len(),
{
    let s = a + more_json(es) + rest;
    if es.len() == 0 {
        assert(more_json(es) =~= Seq::<char>::empty());
        assert(s[a.len() as int] == ']');
    } else {
        let e = es[0];
        let tail = es.drop_first();
        reveal_strlit(",");
        let a1 = a + ","@;
        let a2 = a1 + expression_json(e);
        assert(s =~= a1 + expression_json(e) + (more_json(tail) + rest));
        lemma_expression_round_trip(a1, e, more_json(tail) + rest);
        assert(s =~= a2 + more_json(tail) + rest);
        lemma_more_round_trip(a2, tail, rest);
        assert(s[a.len() as int] == ',');
        assert(seq![e] + tail =~= es);
    }
}

proof fn lemma_expression_json_first(m: ExpressionModel)
    ensures
        expression_json(m).len() > 0 && expression_json(m)[0] == '{',
{
    reveal(expression_json);
    reveal_strlit("{\"type\":");
}

/// An array of expressions written at the end of `a` is read back from there.
pub proof fn lemma_list_round_trip(a: Seq<char>, es: Seq<ExpressionModel>, rest: Seq<char>)
    ensures
        parse_list(a + list_json(es) + rest, a.len() as int) == Some((es, a.len() + list_json(es).len() as int)),
{
    reveal(parse_list);
    let s = a + list_json(es) + rest;
    reveal_strlit("[");
    reveal_strlit("]");
    if es.len() == 0 {
        assert(s[a.len() as int] == '[');
        assert(s[a.len() as int + 1] == ']');
    } else {
        let e = es[0];
        let tail = es.drop_first();
        let a1 = a + "["@;
        let a2 = a1 + expression_json(e);
        lemma_expression_json_first(e);
        assert(s =~= a1 + expression_json(e) + (more_json(tail) + "]"@ + rest));
        lemma_expression_round_trip(a1, e, more_json(tail) + "]"@ + rest);
        assert(s =~= a2 + more_json(tail) + ("]"@ + rest));
        lemma_more_round_trip(a2, tail, "]"@ + rest);
        assert(s[a.len() as int] == '[');
        assert(s[a.len() as int + 1] == '{');
        assert(seq![e] + tail =~= es);
    }
}

/// Reads an array of expressions at `pos` of `s`.
pub fn read_list_at(s: &Vec<char>, pos: usize) -> (r: Option<(Vec<Expression>, usize)>)
    ensures
        r is Some <==> parse_list(s@, pos as int) is Some,
        r matches Some((v, p)) ==> parse_list(s@, pos as int) == Some((models(v@), p as int)),
{
    reveal(parse_list);
    if pos >= s.len() || s.len() - pos < 2 || s[pos] != '[' {
        return None;
    }
    if s[pos + 1] == ']' {
        let empty: Vec<Expression> = Vec::new();
        assert(models(empty@) =~= Seq::<ExpressionModel>::empty());
        return Some((empty, pos + 2));
    }
    let (first, p) = read_expression_at(s, pos + 1)?;
    if p > s.len() {
        return None;
    }
    let mut out: Vec<Expression> = Vec::new();
    out.push(first);
    let mut i: usize = p;
    assert(models(out@) =~= seq![first@]);
    while i <= s.len()
        invariant
            i <= s@.len(),
            parse_list(s@, pos as int) == after_models(models(out@), parse_more(s@, i as int)),
        decreases s@.len() - i,
    {
        if i == s.len() {
            return None;
        }
        if s[i] == ']' {
            assert(models(out@) + Seq::<ExpressionModel>::empty() =~= models(out@));
            return Some((out, i + 1));
        }
        if s[i] != ',' {
            return None;
        }
        let (e, q) = read_expression_at(s, i + 1)?;
        if q <= i || q > s.len() {
            return None;
        }
        let ghost before = models(out@);
        out.push(e);
        proof {
            assert(models(out@) =~= before.push(e@));
            let rest = parse_more(s@, q as int);
            if rest is Some {
                assert(before + (seq![e@] + value_of(rest)) =~= models(out@) + value_of(rest));
            }
        }
        i = q;
    }
    None
}

} // verus!
