use vstd::prelude::*;

use crate::XdiffError;
use crate::text::{chars_of, chars_to_string, dec_of, push_all, push_dec, push_spaces, push_str_chars, spaces, subvec};

verus! {

pub open spec fn views(xs: Seq<String>) -> Seq<Seq<char>> {
    xs.map_values(|s: String| s@)
}

#[derive(Clone, Copy, Debug, PartialEq, Eq, Structural)]
pub enum DiffTag {
    Equal,
    Delete,
    Insert,
    Replace,
}

/// One diff operation over line ranges of the two texts.
#[derive(Clone, Copy, Debug)]
pub struct DiffOp {
    pub tag: DiffTag,
    pub old_index: usize,
    pub old_len: usize,
    pub new_index: usize,
    pub new_len: usize,
}

/// The ops partition both line sequences in order: each op's ranges start
/// where the previous op's ended, the whole of both sides is covered, Equal
/// ops cover identical runs, and identical inputs give only Equal ops.
pub open spec fn valid_ops(ops: Seq<DiffOp>, a: Seq<Seq<char>>, b: Seq<Seq<char>>) -> bool {
    &&& (ops.len() == 0 ==> a.len() == 0 && b.len() == 0)
    &&& (ops.len() > 0 ==> ops[0].old_index == 0 && ops[0].new_index == 0)
    &&& (ops.len() > 0 ==> ops.last().old_index + ops.last().old_len == a.len()
        && ops.last().new_index + ops.last().new_len == b.len())
    &&& forall|i: int| 0 <= i < ops.len() - 1 ==> (#[trigger] ops[i + 1]).old_index
        == ops[i].old_index + ops[i].old_len && ops[i + 1].new_index == ops[i].new_index
        + ops[i].new_len
    &&& forall|i: int| 0 <= i < ops.len() ==> ops[i].old_index + (#[trigger] ops[i]).old_len
        <= a.len() && ops[i].new_index + ops[i].new_len <= b.len()
    &&& forall|i: int| 0 <= i < ops.len() ==> ((#[trigger] ops[i]).tag is Equal ==> ops[i].old_len
        == ops[i].new_len && forall|k: int| 0 <= k < ops[i].old_len ==> a[ops[i].old_index
        + #[trigger] (k + 0)] == b[ops[i].new_index + k])
    &&& forall|i: int| 0 <= i < ops.len() ==> ((#[trigger] ops[i]).tag is Delete ==> ops[i].new_len
        == 0 && ops[i].old_len > 0)
    &&& forall|i: int| 0 <= i < ops.len() ==> ((#[trigger] ops[i]).tag is Insert ==> ops[i].old_len
        == 0 && ops[i].new_len > 0)
    &&& forall|i: int| 0 <= i < ops.len() ==> ((#[trigger] ops[i]).tag is Replace ==> ops[i].old_len
        > 0 && ops[i].new_len > 0)
    &&& (a == b ==> forall|i: int| 0 <= i < ops.len() ==> (#[trigger] ops[i]).tag is Equal)
}

/// What the Myers diff of two token sequences yields: a function of the
/// inputs alone.
pub uninterp spec fn diff_ops_of(a: Seq<Seq<char>>, b: Seq<Seq<char>>) -> Seq<DiffOp>;

/// Relies on `similar::capture_diff_slices` with the Myers algorithm: the
/// result depends on the inputs alone; the returned ops cover both inputs in
/// order; `Equal` ops span identical runs; `Delete`/`Insert`/`Replace` ops
/// have the advertised empty sides; equal inputs yield a single `Equal` op
/// (or none when empty).
#[verifier::external_body]
fn diff_ops(a: &Vec<String>, b: &Vec<String>) -> (r: Vec<DiffOp>)
    ensures
        r@ == diff_ops_of(views(a@), views(b@)),
        valid_ops(r@, views(a@), views(b@)),
{
    let ops = similar::capture_diff_slices(similar::Algorithm::Myers, a.as_slice(), b.as_slice());
    ops.into_iter().map(|op| match op {
        similar::DiffOp::Equal { old_index, new_index, len } => DiffOp { tag: DiffTag::Equal, old_index, old_len: len, new_index, new_len: len },
        similar::DiffOp::Delete { old_index, old_len, new_index } => DiffOp { tag: DiffTag::Delete, old_index, old_len, new_index, new_len: 0 },
        similar::DiffOp::Insert { old_index, new_index, new_len } => DiffOp { tag: DiffTag::Insert, old_index, old_len: 0, new_index, new_len },
        similar::DiffOp::Replace { old_index, old_len, new_index, new_len } => DiffOp { tag: DiffTag::Replace, old_index, old_len, new_index, new_len },
    }).collect()
}

// ---------------------------------------------------------------------------
// Splitting a text into lines that keep their terminators.
// ---------------------------------------------------------------------------

/// The first index at or after `j` holding `'\n'`, or the length if none.
pub open spec fn nl_pos(s: Seq<char>, j: int) -> int
    decreases s.len() - j,
{
    if 0 <= j < s.len() {
        if s[j] == '\n' {
            j
        } else {
            nl_pos(s, j + 1)
        }
    } else {
        s.len() as int
    }
}

/// The lines of `s` from index `from` on, each keeping its `'\n'`; a last
/// line without one is kept as it stands.
pub open spec fn lines_from(s: Seq<char>, from: int) -> Seq<Seq<char>>
    decreases s.len() - from,
{
    if from < 0 || from >= s.len() {
        Seq::empty()
    } else {
        let p0 = nl_pos(s, from);
        let p = if p0 < from { from } else { p0 };
        if p >= s.len() {
            seq![s.subrange(from, s.len() as int)]
        } else {
            seq![s.subrange(from, p + 1)] + lines_from(s, p + 1)
        }
    }
}

/// Splits a text into its lines, terminators kept.
#[verifier::loop_isolation(false)]
pub fn split_lines(s: &Vec<char>) -> (r: Vec<String>)
    ensures
        views(r@) == lines_from(s@, 0),
{
    let n = s.len();
    let mut acc: Vec<String> = Vec::new();
    let mut from: usize = 0;
    while from < n
        invariant
            from <= n || from == n + 1,
            n == s@.len(),
            views(acc@) + lines_from(s@, from as int) =~~= lines_from(s@, 0),
        decreases n - from,
    {
        let mut p: usize = from;
        while p < n && s[p] != '\n'
            invariant
                from <= p <= n,
                nl_pos(s@, from as int) == nl_pos(s@, p as int),
            decreases n - p,
        {
            p = p + 1;
        }
        proof {
            assert(nl_pos(s@, from as int) == p);
        }
        if p >= n {
            let line = subvec(s, from, n);
            acc.push(chars_to_string(&line));
            proof {
                assert(views(acc@) =~~= lines_from(s@, 0));
            }
            return acc;
        } else {
            let line = subvec(s, from, p + 1);
            acc.push(chars_to_string(&line));
            from = p + 1;
            proof {
                assert(views(acc@) + lines_from(s@, from as int) =~~= lines_from(s@, 0));
            }
        }
    }
    proof {
        assert(views(acc@) =~~= lines_from(s@, 0));
    }
    acc
}

// ---------------------------------------------------------------------------
// Per-line change records.
// ---------------------------------------------------------------------------

/// Each character of a text as a one-character token.
pub open spec fn tokens(s: Seq<char>) -> Seq<Seq<char>> {
    s.map_values(|c: char| seq![c])
}

/// The concatenation of lines `oi .. oi + k`.
pub open spec fn concat_from(a: Seq<Seq<char>>, oi: int, k: int) -> Seq<char>
    decreases k,
{
    if k <= 0 {
        Seq::empty()
    } else {
        concat_from(a, oi, k - 1) + a[oi + k - 1]
    }
}

pub open spec fn clen(a: Seq<Seq<char>>, oi: int, k: int) -> int {
    concat_from(a, oi, k).len() as int
}

/// Whether character position `i` of the old side lies inside a changed op.
pub open spec fn old_emph(ops: Seq<DiffOp>, i: int) -> bool {
    exists|t: int|
        0 <= t < ops.len() && !((#[trigger] ops[t]).tag is Equal) && ops[t].old_index <= i
            < ops[t].old_index + ops[t].old_len
}

/// Whether character position `i` of the new side lies inside a changed op.
pub open spec fn new_emph(ops: Seq<DiffOp>, i: int) -> bool {
    exists|t: int|
        0 <= t < ops.len() && !((#[trigger] ops[t]).tag is Equal) && ops[t].new_index <= i
            < ops[t].new_index + ops[t].new_len
}

/// The character-level ops of one replaced block: the old lines' text
/// against the new lines' text, one token per character.
pub open spec fn rep_ops(a: Seq<Seq<char>>, b: Seq<Seq<char>>, op: DiffOp) -> Seq<DiffOp> {
    diff_ops_of(
        tokens(concat_from(a, op.old_index as int, op.old_len as int)),
        tokens(concat_from(b, op.new_index as int, op.new_len as int)),
    )
}

/// One rendered diff line: its sign, its 1-based index on each side (where
/// it exists), its text, and the emphasis mask over the text's characters.
/// An empty mask on a non-empty text means no emphasis.
#[verifier::ext_equal]
pub struct Rec {
    pub sign: char,
    pub old: Option<int>,
    pub new: Option<int>,
    pub text: Seq<char>,
    pub em: Seq<bool>,
}

pub open spec fn eq_recs(a: Seq<Seq<char>>, oi: int, ni: int, k: int) -> Seq<Rec>
    decreases k,
{
    if k <= 0 {
        Seq::empty()
    } else {
        eq_recs(a, oi, ni, k - 1).push(
            Rec {
                sign: ' ',
                old: Some(oi + k),
                new: Some(ni + k),
                text: a[oi + k - 1],
                em: Seq::empty(),
            },
        )
    }
}

/// The emphasis mask of the line at `oi + j`, read off the character ops of
/// the enclosing block at the line's offset in it.
pub open spec fn old_mask(a: Seq<Seq<char>>, oi: int, j: int, ops: Seq<DiffOp>) -> Seq<bool> {
    Seq::new(a[oi + j].len(), |p: int| old_emph(ops, clen(a, oi, j) + p))
}

pub open spec fn new_mask(b: Seq<Seq<char>>, ni: int, j: int, ops: Seq<DiffOp>) -> Seq<bool> {
    Seq::new(b[ni + j].len(), |p: int| new_emph(ops, clen(b, ni, j) + p))
}

pub open spec fn del_recs(a: Seq<Seq<char>>, oi: int, k: int, ops: Seq<DiffOp>) -> Seq<Rec>
    decreases k,
{
    if k <= 0 {
        Seq::empty()
    } else {
        del_recs(a, oi, k - 1, ops).push(
            Rec {
                sign: '-',
                old: Some(oi + k),
                new: Option::None,
                text: a[oi + k - 1],
                em: old_mask(a, oi, k - 1, ops),
            },
        )
    }
}

pub open spec fn ins_recs(b: Seq<Seq<char>>, ni: int, k: int, ops: Seq<DiffOp>) -> Seq<Rec>
    decreases k,
{
    if k <= 0 {
        Seq::empty()
    } else {
        ins_recs(b, ni, k - 1, ops).push(
            Rec {
                sign: '+',
                old: Option::None,
                new: Some(ni + k),
                text: b[ni + k - 1],
                em: new_mask(b, ni, k - 1, ops),
            },
        )
    }
}

pub proof fn lemma_eq_recs_index(a: Seq<Seq<char>>, oi: int, ni: int, k: int)
    ensures
        eq_recs(a, oi, ni, k).len() == if k <= 0 { 0int } else { k },
        forall|j: int| 0 <= j < eq_recs(a, oi, ni, k).len() ==> #[trigger] eq_recs(a, oi, ni, k)[j]
            == (Rec {
            sign: ' ',
            old: Some(oi + j + 1),
            new: Some(ni + j + 1),
            text: a[oi + j],
            em: Seq::empty(),
        }),
    decreases k,
{
    if k > 0 {
        lemma_eq_recs_index(a, oi, ni, k - 1);
    }
}

pub proof fn lemma_del_recs_index(a: Seq<Seq<char>>, oi: int, k: int, ops: Seq<DiffOp>)
    ensures
        del_recs(a, oi, k, ops).len() == if k <= 0 { 0int } else { k },
        forall|j: int| 0 <= j < del_recs(a, oi, k, ops).len() ==> #[trigger] del_recs(
            a,
            oi,
            k,
            ops,
        )[j] == (Rec {
            sign: '-',
            old: Some(oi + j + 1),
            new: Option::None,
            text: a[oi + j],
            em: old_mask(a, oi, j, ops),
        }),
    decreases k,
{
    if k > 0 {
        lemma_del_recs_index(a, oi, k - 1, ops);
    }
}

pub proof fn lemma_ins_recs_index(b: Seq<Seq<char>>, ni: int, k: int, ops: Seq<DiffOp>)
    ensures
        ins_recs(b, ni, k, ops).len() == if k <= 0 { 0int } else { k },
        forall|j: int| 0 <= j < ins_recs(b, ni, k, ops).len() ==> #[trigger] ins_recs(
            b,
            ni,
            k,
            ops,
        )[j] == (Rec {
            sign: '+',
            old: Option::None,
            new: Some(ni + j + 1),
            text: b[ni + j],
            em: new_mask(b, ni, j, ops),
        }),
    decreases k,
{
    if k > 0 {
        lemma_ins_recs_index(b, ni, k - 1, ops);
    }
}

/// The records of one op. Context and pure delete/insert lines carry no
/// emphasis; a replaced block's lines are masked by the character-level diff
/// of the block's old text against its new text.
pub open spec fn op_records(op: DiffOp, a: Seq<Seq<char>>, b: Seq<Seq<char>>) -> Seq<Rec> {
    match op.tag {
        DiffTag::Equal => eq_recs(a, op.old_index as int, op.new_index as int, op.old_len as int),
        DiffTag::Delete => del_recs(a, op.old_index as int, op.old_len as int, Seq::empty()),
        DiffTag::Insert => ins_recs(b, op.new_index as int, op.new_len as int, Seq::empty()),
        DiffTag::Replace => del_recs(a, op.old_index as int, op.old_len as int, rep_ops(a, b, op))
            + ins_recs(b, op.new_index as int, op.new_len as int, rep_ops(a, b, op)),
    }
}

/// The records of the first `n` ops, in order.
pub open spec fn records_of(ops: Seq<DiffOp>, a: Seq<Seq<char>>, b: Seq<Seq<char>>, n: int) -> Seq<
    Rec,
>
    decreases n,
{
    if n <= 0 || n > ops.len() {
        Seq::empty()
    } else {
        records_of(ops, a, b, n - 1) + op_records(ops[n - 1], a, b)
    }
}

// ---------------------------------------------------------------------------
// Hunk selection and rendering.
// ---------------------------------------------------------------------------

/// A record is shown when some changed record lies within three lines.
pub open spec fn kept(recs: Seq<Rec>, i: int) -> bool {
    exists|j: int| 0 <= j < recs.len() && i - 3 <= j <= i + 3 && (#[trigger] recs[j]).sign != ' '
}

pub open spec fn kept_before(recs: Seq<Rec>, i: int) -> bool {
    exists|j: int| 0 <= j < i && kept(recs, j)
}

pub open spec fn dashes(n: nat) -> Seq<char>
    decreases n,
{
    if n == 0 {
        Seq::empty()
    } else {
        dashes((n - 1) as nat) + seq!['-']
    }
}

/// The rule between two hunks: eighty dashes on a line of their own.
pub open spec fn separator() -> Seq<char> {
    dashes(80) + seq!['\n']
}

/// A line-index column: four columns wide, left-aligned, blank when the
/// line does not exist on that side. Records carry 1-based indices.
pub open spec fn pad4(o: Option<int>) -> Seq<char> {
    match o {
        Option::None => spaces(4),
        Option::Some(i) => {
            let d = dec_of(i as nat);
            if d.len() < 4 {
                d + spaces((4 - d.len()) as nat)
            } else {
                d
            }
        },
    }
}

/// The terminal code that turns the emphasis on: underline.
pub open spec fn emph_on() -> Seq<char> {
    seq!['\u{1b}', '[', '4', 'm']
}

/// The terminal code that turns the emphasis off.
pub open spec fn emph_off() -> Seq<char> {
    seq!['\u{1b}', '[', '2', '4', 'm']
}

/// The first `n` characters of `text`, with the emphasis code opened before
/// each run of masked characters and closed after it. The characters of
/// `text` appear unchanged and in order.
pub open spec fn er_prefix(text: Seq<char>, em: Seq<bool>, n: int) -> Seq<char>
    decreases n,
{
    if n <= 0 || n > text.len() || em.len() != text.len() {
        Seq::empty()
    } else {
        er_prefix(text, em, n - 1) + (if em[n - 1] && (n - 1 == 0 || !em[n - 2]) {
            emph_on()
        } else {
            Seq::empty()
        }) + seq![text[n - 1]] + (if em[n - 1] && (n == text.len() || !em[n]) {
            emph_off()
        } else {
            Seq::empty()
        })
    }
}

/// A line's text with its emphasized sub-spans marked; a mask of another
/// length means no emphasis and the text stands alone.
pub open spec fn emph_render(text: Seq<char>, em: Seq<bool>) -> Seq<char> {
    if em.len() == text.len() {
        er_prefix(text, em, text.len() as int)
    } else {
        text
    }
}

/// A mask with nothing set renders the text unchanged.
pub proof fn lemma_emph_plain(text: Seq<char>, em: Seq<bool>, n: int)
    requires
        em.len() == text.len(),
        0 <= n <= text.len(),
        forall|p: int| 0 <= p < em.len() ==> !em[p],
    ensures
        er_prefix(text, em, n) =~= text.subrange(0, n),
    decreases n,
{
    if n > 0 {
        lemma_emph_plain(text, em, n - 1);
    }
}

/// One rendered line: both index columns, the sign, the line's text with its
/// emphasized sub-spans marked, and a terminator supplied only when the text
/// lacks its own.
pub open spec fn line_render(rec: Rec) -> Seq<char> {
    pad4(rec.old) + pad4(rec.new) + seq![' ', '|'] + seq![rec.sign] + emph_render(rec.text, rec.em)
        + if rec.text.len() > 0 && rec.text[rec.text.len() - 1] == '\n' {
        Seq::empty()
    } else {
        seq!['\n']
    }
}

/// The rendering of the first `n` records: kept records in order, with the
/// separator before each hunk after the first.
pub open spec fn rend(recs: Seq<Rec>, n: int) -> Seq<char>
    decreases n,
{
    if n <= 0 || n > recs.len() {
        Seq::empty()
    } else {
        rend(recs, n - 1) + if kept(recs, n - 1) {
            (if n - 1 > 0 && !kept(recs, n - 2) && kept_before(recs, n - 1) {
                separator()
            } else {
                Seq::empty()
            }) + line_render(recs[n - 1])
        } else {
            Seq::empty()
        }
    }
}

/// The full rendered diff of two line sequences under a given op list.
pub open spec fn rendered(ops: Seq<DiffOp>, a: Seq<Seq<char>>, b: Seq<Seq<char>>) -> Seq<char> {
    let recs = records_of(ops, a, b, ops.len() as int);
    rend(recs, recs.len() as int)
}

/// All-Equal ops render to nothing: every record keeps the space sign, so no
/// record lies near a change and none is kept.
pub proof fn lemma_equal_ops_render_empty(ops: Seq<DiffOp>, a: Seq<Seq<char>>, b: Seq<Seq<char>>)
    requires
        forall|i: int| 0 <= i < ops.len() ==> (#[trigger] ops[i]).tag is Equal,
    ensures
        rendered(ops, a, b) == Seq::<char>::empty(),
{
    let recs = records_of(ops, a, b, ops.len() as int);
    lemma_equal_ops_records(ops, a, b, ops.len() as int);
    lemma_rend_unkept(recs, recs.len() as int);
}

pub proof fn lemma_eq_recs_signs(a: Seq<Seq<char>>, oi: int, ni: int, k: int)
    ensures
        eq_recs(a, oi, ni, k).len() == if k <= 0 { 0int } else { k },
        forall|j: int| 0 <= j < eq_recs(a, oi, ni, k).len() ==> (#[trigger] eq_recs(
            a,
            oi,
            ni,
            k,
        )[j]).sign == ' ',
    decreases k,
{
    if k > 0 {
        lemma_eq_recs_signs(a, oi, ni, k - 1);
    }
}

pub proof fn lemma_equal_ops_records(ops: Seq<DiffOp>, a: Seq<Seq<char>>, b: Seq<Seq<char>>, n: int)
    requires
        forall|i: int| 0 <= i < ops.len() ==> (#[trigger] ops[i]).tag is Equal,
    ensures
        forall|j: int| 0 <= j < records_of(ops, a, b, n).len() ==> (#[trigger] records_of(
            ops,
            a,
            b,
            n,
        )[j]).sign == ' ',
    decreases n,
{
    if n > 0 && n <= ops.len() {
        lemma_equal_ops_records(ops, a, b, n - 1);
        lemma_eq_recs_signs(a, ops[n - 1].old_index as int, ops[n - 1].new_index as int, ops[n
            - 1].old_len as int);
    }
}

pub proof fn lemma_rend_unkept(recs: Seq<Rec>, n: int)
    requires
        forall|j: int| 0 <= j < recs.len() ==> (#[trigger] recs[j]).sign == ' ',
    ensures
        rend(recs, n) == Seq::<char>::empty(),
    decreases n,
{
    if n > 0 && n <= recs.len() {
        lemma_rend_unkept(recs, n - 1);
        assert(!kept(recs, n - 1));
    }
}


// ---------------------------------------------------------------------------
// Executable record building and rendering.
// ---------------------------------------------------------------------------

/// One rendered diff line, executable form.
pub struct RecE {
    pub sign: char,
    pub old: Option<usize>,
    pub new: Option<usize>,
    pub text: String,
    pub em: Vec<bool>,
}

pub open spec fn oint(o: Option<usize>) -> Option<int> {
    match o {
        Option::Some(u) => Some(u as int),
        Option::None => Option::None,
    }
}

pub open spec fn rview(r: RecE) -> Rec {
    Rec { sign: r.sign, old: oint(r.old), new: oint(r.new), text: r.text@, em: r.em@ }
}

pub open spec fn rviews(rs: Seq<RecE>) -> Seq<Rec> {
    rs.map_values(|r: RecE| rview(r))
}

/// Expands the op list to one record per rendered line.
#[verifier::loop_isolation(false)]
#[verifier::rlimit(100)]
fn build_records(ops: &Vec<DiffOp>, a: &Vec<String>, b: &Vec<String>) -> (r: Vec<RecE>)
    requires
        valid_ops(ops@, views(a@), views(b@)),
    ensures
        rviews(r@) == records_of(ops@, views(a@), views(b@), ops@.len() as int),
{
    let ghost va = views(a@);
    let ghost vb = views(b@);
    let alen = a.len();
    let blen = b.len();
    let mut recs: Vec<RecE> = Vec::new();
    let n = ops.len();
    let mut i: usize = 0;
    while i < n
        invariant
            i <= n,
            n == ops@.len(),
            rviews(recs@) =~~= records_of(ops@, va, vb, i as int),
        decreases n - i,
    {
        let op = ops[i];
        let ghost base = rviews(recs@);
        match op.tag {
            DiffTag::Equal => {
                let mut k: usize = 0;
                while k < op.old_len
                    invariant
                        k <= op.old_len,
                        op == ops@[i as int],
                        i < n,
                        alen == a@.len(),
                        blen == b@.len(),
                        op.old_index + op.old_len <= alen,
                        op.new_index + op.new_len <= blen,
                        op.old_len == op.new_len,
                        rviews(recs@) =~~= base + eq_recs(
                            va,
                            op.old_index as int,
                            op.new_index as int,
                            k as int,
                        ),
                    decreases op.old_len - k,
                {
                    let t = a[op.old_index + k].clone();
                    let ghost before = recs@;
                    recs.push(
                        RecE {
                            sign: ' ',
                            old: Some(op.old_index + k + 1),
                            new: Some(op.new_index + k + 1),
                            text: t,
                            em: Vec::new(),
                        },
                    );
                    k = k + 1;
                    proof {
                        lemma_eq_recs_index(va, op.old_index as int, op.new_index as int, k - 1);
                        lemma_eq_recs_index(va, op.old_index as int, op.new_index as int, k as int);
                        let rs = rviews(recs@);
                        let tgt = base + eq_recs(
                            va,
                            op.old_index as int,
                            op.new_index as int,
                            k as int,
                        );
                        assert(rs.len() == tgt.len());
                        assert forall|j: int| 0 <= j < rs.len() implies rs[j] == tgt[j] by {
                            assert(rs[j] == rview(recs@[j]));
                            if j < before.len() {
                                assert(recs@[j] == before[j]);
                                assert(rview(before[j]) == rviews(before)[j]);
                                assert(rviews(before)[j] == (base + eq_recs(
                                    va,
                                    op.old_index as int,
                                    op.new_index as int,
                                    k - 1,
                                ))[j]);
                            } else {
                                assert(recs@[j].sign == ' ');
                                assert(recs@[j].text == t);
                                assert(recs@[j].em@ =~= Seq::<bool>::empty());
                                assert(va[op.old_index + (j - base.len())] == a@[op.old_index + (
                                j - base.len())]@);
                            }
                        }
                        assert(rs =~= tgt);
                    }
                }
            },
            DiffTag::Delete => {
                push_del(&mut recs, a, op.old_index, op.old_len, Ghost(base));
            },
            DiffTag::Insert => {
                push_ins(&mut recs, b, op.new_index, op.new_len, Ghost(base));
            },
            DiffTag::Replace => {
                let block_a = concat_lines(a, op.old_index, op.old_len);
                let block_b = concat_lines(b, op.new_index, op.new_len);
                let ta = char_tokens(&block_a);
                let tb = char_tokens(&block_b);
                let char_ops = diff_ops(&ta, &tb);
                proof {
                    assert(views(ta@) =~~= tokens(concat_from(
                        va,
                        op.old_index as int,
                        op.old_len as int,
                    )));
                    assert(views(tb@) =~~= tokens(concat_from(
                        vb,
                        op.new_index as int,
                        op.new_len as int,
                    )));
                    assert(char_ops@ == rep_ops(va, vb, op));
                }
                push_del_marked(
                    &mut recs,
                    a,
                    op.old_index,
                    op.old_len,
                    &char_ops,
                    block_a.len(),
                    Ghost(base),
                );
                let ghost base2 = rviews(recs@);
                push_ins_marked(
                    &mut recs,
                    b,
                    op.new_index,
                    op.new_len,
                    &char_ops,
                    block_b.len(),
                    Ghost(base2),
                );
                proof {
                    assert(rviews(recs@) =~~= base + (del_recs(
                        va,
                        op.old_index as int,
                        op.old_len as int,
                        rep_ops(va, vb, op),
                    ) + ins_recs(vb, op.new_index as int, op.new_len as int, rep_ops(va, vb, op))));
                }
            },
        }
        i = i + 1;
        proof {
            assert(rviews(recs@) =~~= records_of(ops@, va, vb, i as int));
        }
    }
    recs
}

/// A vector of `n` cleared mask bits.
fn vec_false(n: usize) -> (r: Vec<bool>)
    ensures
        r@.len() == n,
        forall|p: int| 0 <= p < n ==> !r@[p],
{
    let mut r: Vec<bool> = Vec::new();
    let mut i: usize = 0;
    while i < n
        invariant
            i <= n,
            r@.len() == i,
            forall|p: int| 0 <= p < i ==> !r@[p],
        decreases n - i,
    {
        r.push(false);
        i = i + 1;
    }
    r
}

/// The concatenated text of lines `oi .. oi + len`.
#[verifier::loop_isolation(false)]
fn concat_lines(xs: &Vec<String>, oi: usize, len: usize) -> (r: Vec<char>)
    requires
        oi + len <= xs@.len(),
    ensures
        r@ == concat_from(views(xs@), oi as int, len as int),
{
    let xn = xs.len();
    let mut out: Vec<char> = Vec::new();
    let mut k: usize = 0;
    while k < len
        invariant
            k <= len,
            xn == xs@.len(),
            oi + len <= xn,
            out@ =~= concat_from(views(xs@), oi as int, k as int),
        decreases len - k,
    {
        push_str_chars(&mut out, xs[oi + k].as_str());
        k = k + 1;
        proof {
            assert(views(xs@)[oi + k - 1] == xs@[oi + k - 1]@);
            assert(out@ =~= concat_from(views(xs@), oi as int, k as int));
        }
    }
    out
}

/// Each character of the block as a one-character token.
#[verifier::loop_isolation(false)]
fn char_tokens(block: &Vec<char>) -> (r: Vec<String>)
    ensures
        views(r@) =~~= tokens(block@),
{
    let n = block.len();
    let mut r: Vec<String> = Vec::new();
    let mut i: usize = 0;
    while i < n
        invariant
            i <= n,
            n == block@.len(),
            r@.len() == i,
            forall|j: int| 0 <= j < i ==> (#[trigger] r@[j])@ =~= seq![block@[j]],
        decreases n - i,
    {
        let mut one: Vec<char> = Vec::new();
        one.push(block[i]);
        r.push(chars_to_string(&one));
        i = i + 1;
    }
    r
}

/// Whether the old-side position `i` is covered by a changed op.
#[verifier::loop_isolation(false)]
fn emph_old_at(ops: &Vec<DiffOp>, i: usize) -> (r: bool)
    ensures
        r == old_emph(ops@, i as int),
{
    let n = ops.len();
    let mut t: usize = 0;
    let mut found = false;
    while t < n
        invariant
            t <= n,
            n == ops@.len(),
            found == exists|u: int|
                0 <= u < t && !((#[trigger] ops@[u]).tag is Equal) && ops@[u].old_index <= i
                    < ops@[u].old_index + ops@[u].old_len,
        decreases n - t,
    {
        let op = ops[t];
        if !matches!(op.tag, DiffTag::Equal) && op.old_index <= i && i - op.old_index
            < op.old_len {
            found = true;
        }
        t = t + 1;
    }
    found
}

/// Whether the new-side position `i` is covered by a changed op.
#[verifier::loop_isolation(false)]
fn emph_new_at(ops: &Vec<DiffOp>, i: usize) -> (r: bool)
    ensures
        r == new_emph(ops@, i as int),
{
    let n = ops.len();
    let mut t: usize = 0;
    let mut found = false;
    while t < n
        invariant
            t <= n,
            n == ops@.len(),
            found == exists|u: int|
                0 <= u < t && !((#[trigger] ops@[u]).tag is Equal) && ops@[u].new_index <= i
                    < ops@[u].new_index + ops@[u].new_len,
        decreases n - t,
    {
        let op = ops[t];
        if !matches!(op.tag, DiffTag::Equal) && op.new_index <= i && i - op.new_index
            < op.new_len {
            found = true;
        }
        t = t + 1;
    }
    found
}

/// A block never shrinks as more of its lines are counted.
proof fn lemma_clen_mono(a: Seq<Seq<char>>, oi: int, k: int, len: int)
    requires
        0 <= k <= len,
    ensures
        clen(a, oi, k) <= clen(a, oi, len),
    decreases len,
{
    if k < len {
        lemma_clen_mono(a, oi, k, len - 1);
    }
}

/// Appends the removed-line records of a pure delete op: no emphasis.
#[verifier::loop_isolation(false)]
fn push_del(recs: &mut Vec<RecE>, a: &Vec<String>, oi: usize, len: usize, Ghost(base): Ghost<
    Seq<Rec>,
>)
    requires
        oi + len <= a@.len(),
        rviews(old(recs)@) == base,
    ensures
        rviews(final(recs)@) =~~= base + del_recs(views(a@), oi as int, len as int, Seq::empty()),
{
    let alen = a.len();
    let ghost nops = Seq::<DiffOp>::empty();
    let mut k: usize = 0;
    while k < len
        invariant
            k <= len,
            alen == a@.len(),
            oi + len <= alen,
            rviews(recs@) =~~= base + del_recs(views(a@), oi as int, k as int, nops),
        decreases len - k,
    {
        let t = a[oi + k].clone();
        let tc = chars_of(t.as_str());
        let em = vec_false(tc.len());
        let ghost em_g = em@;
        let ghost before = recs@;
        recs.push(RecE { sign: '-', old: Some(oi + k + 1), new: Option::None, text: t, em });
        k = k + 1;
        proof {
            lemma_del_recs_index(views(a@), oi as int, k - 1, nops);
            lemma_del_recs_index(views(a@), oi as int, k as int, nops);
            assert(em_g =~= old_mask(views(a@), oi as int, k - 1, nops));
            let rs = rviews(recs@);
            let tgt = base + del_recs(views(a@), oi as int, k as int, nops);
            assert(rs.len() == tgt.len());
            assert forall|j: int| 0 <= j < rs.len() implies rs[j] == tgt[j] by {
                assert(rs[j] == rview(recs@[j]));
                if j < before.len() {
                    assert(recs@[j] == before[j]);
                    assert(rview(before[j]) == rviews(before)[j]);
                    assert(rviews(before)[j] == (base + del_recs(
                        views(a@),
                        oi as int,
                        k - 1,
                        nops,
                    ))[j]);
                } else {
                    assert(recs@[j].sign == '-');
                    assert(recs@[j].text == t);
                    assert(recs@[j].em@ == em_g);
                    assert(views(a@)[oi + (j - base.len())] == a@[oi + (j - base.len())]@);
                }
            }
            assert(rs =~= tgt);
        }
    }
}

/// Appends the added-line records of a pure insert op: no emphasis.
#[verifier::loop_isolation(false)]
fn push_ins(recs: &mut Vec<RecE>, b: &Vec<String>, ni: usize, len: usize, Ghost(base): Ghost<
    Seq<Rec>,
>)
    requires
        ni + len <= b@.len(),
        rviews(old(recs)@) == base,
    ensures
        rviews(final(recs)@) =~~= base + ins_recs(views(b@), ni as int, len as int, Seq::empty()),
{
    let blen = b.len();
    let ghost nops = Seq::<DiffOp>::empty();
    let mut k: usize = 0;
    while k < len
        invariant
            k <= len,
            blen == b@.len(),
            ni + len <= blen,
            rviews(recs@) =~~= base + ins_recs(views(b@), ni as int, k as int, nops),
        decreases len - k,
    {
        let t = b[ni + k].clone();
        let tc = chars_of(t.as_str());
        let em = vec_false(tc.len());
        let ghost em_g = em@;
        let ghost before = recs@;
        recs.push(RecE { sign: '+', old: Option::None, new: Some(ni + k + 1), text: t, em });
        k = k + 1;
        proof {
            lemma_ins_recs_index(views(b@), ni as int, k - 1, nops);
            lemma_ins_recs_index(views(b@), ni as int, k as int, nops);
            assert(em_g =~= new_mask(views(b@), ni as int, k - 1, nops));
            let rs = rviews(recs@);
            let tgt = base + ins_recs(views(b@), ni as int, k as int, nops);
            assert(rs.len() == tgt.len());
            assert forall|j: int| 0 <= j < rs.len() implies rs[j] == tgt[j] by {
                assert(rs[j] == rview(recs@[j]));
                if j < before.len() {
                    assert(recs@[j] == before[j]);
                    assert(rview(before[j]) == rviews(before)[j]);
                    assert(rviews(before)[j] == (base + ins_recs(
                        views(b@),
                        ni as int,
                        k - 1,
                        nops,
                    ))[j]);
                } else {
                    assert(recs@[j].sign == '+');
                    assert(recs@[j].text == t);
                    assert(recs@[j].em@ == em_g);
                    assert(views(b@)[ni + (j - base.len())] == b@[ni + (j - base.len())]@);
                }
            }
            assert(rs =~= tgt);
        }
    }
}

/// Appends the removed-line records of a replaced block, each line masked by
/// the block's character ops at the line's offset.
#[verifier::loop_isolation(false)]
#[verifier::rlimit(100)]
fn push_del_marked(
    recs: &mut Vec<RecE>,
    a: &Vec<String>,
    oi: usize,
    len: usize,
    char_ops: &Vec<DiffOp>,
    bl: usize,
    Ghost(base): Ghost<Seq<Rec>>,
)
    requires
        oi + len <= a@.len(),
        clen(views(a@), oi as int, len as int) == bl,
        rviews(old(recs)@) == base,
    ensures
        rviews(final(recs)@) =~~= base + del_recs(views(a@), oi as int, len as int, char_ops@),
{
    let alen = a.len();
    let mut off: usize = 0;
    let mut k: usize = 0;
    while k < len
        invariant
            k <= len,
            alen == a@.len(),
            oi + len <= alen,
            off == clen(views(a@), oi as int, k as int),
            rviews(recs@) =~~= base + del_recs(views(a@), oi as int, k as int, char_ops@),
        decreases len - k,
    {
        let t = a[oi + k].clone();
        let tc = chars_of(t.as_str());
        let m = tc.len();
        proof {
            assert(concat_from(views(a@), oi as int, k + 1) =~= concat_from(
                views(a@),
                oi as int,
                k as int,
            ) + views(a@)[oi + k]);
            assert(views(a@)[oi + k] == a@[oi + k]@);
            lemma_clen_mono(views(a@), oi as int, k + 1, len as int);
        }
        let mut em: Vec<bool> = Vec::new();
        let mut p: usize = 0;
        while p < m
            invariant
                p <= m,
                m == t@.len(),
                off + m <= bl,
                em@.len() == p,
                forall|q: int| 0 <= q < p ==> em@[q] == old_emph(char_ops@, off + q),
            decreases m - p,
        {
            let bit = emph_old_at(char_ops, off + p);
            em.push(bit);
            p = p + 1;
        }
        let ghost em_g = em@;
        proof {
            assert(em_g =~= old_mask(views(a@), oi as int, k as int, char_ops@));
        }
        let ghost before = recs@;
        recs.push(RecE { sign: '-', old: Some(oi + k + 1), new: Option::None, text: t, em });
        off = off + m;
        k = k + 1;
        proof {
            lemma_del_recs_index(views(a@), oi as int, k - 1, char_ops@);
            lemma_del_recs_index(views(a@), oi as int, k as int, char_ops@);
            let rs = rviews(recs@);
            let tgt = base + del_recs(views(a@), oi as int, k as int, char_ops@);
            assert(rs.len() == tgt.len());
            assert forall|j: int| 0 <= j < rs.len() implies rs[j] == tgt[j] by {
                assert(rs[j] == rview(recs@[j]));
                if j < before.len() {
                    assert(recs@[j] == before[j]);
                    assert(rview(before[j]) == rviews(before)[j]);
                    assert(rviews(before)[j] == (base + del_recs(
                        views(a@),
                        oi as int,
                        k - 1,
                        char_ops@,
                    ))[j]);
                } else {
                    assert(recs@[j].sign == '-');
                    assert(recs@[j].text == t);
                    assert(recs@[j].em@ == em_g);
                    assert(views(a@)[oi + (j - base.len())] == a@[oi + (j - base.len())]@);
                }
            }
            assert(rs =~= tgt);
        }
    }
}

/// Appends the added-line records of a replaced block, masked likewise.
#[verifier::loop_isolation(false)]
#[verifier::rlimit(100)]
fn push_ins_marked(
    recs: &mut Vec<RecE>,
    b: &Vec<String>,
    ni: usize,
    len: usize,
    char_ops: &Vec<DiffOp>,
    bl: usize,
    Ghost(base): Ghost<Seq<Rec>>,
)
    requires
        ni + len <= b@.len(),
        clen(views(b@), ni as int, len as int) == bl,
        rviews(old(recs)@) == base,
    ensures
        rviews(final(recs)@) =~~= base + ins_recs(views(b@), ni as int, len as int, char_ops@),
{
    let blen = b.len();
    let mut off: usize = 0;
    let mut k: usize = 0;
    while k < len
        invariant
            k <= len,
            blen == b@.len(),
            ni + len <= blen,
            off == clen(views(b@), ni as int, k as int),
            rviews(recs@) =~~= base + ins_recs(views(b@), ni as int, k as int, char_ops@),
        decreases len - k,
    {
        let t = b[ni + k].clone();
        let tc = chars_of(t.as_str());
        let m = tc.len();
        proof {
            assert(concat_from(views(b@), ni as int, k + 1) =~= concat_from(
                views(b@),
                ni as int,
                k as int,
            ) + views(b@)[ni + k]);
            assert(views(b@)[ni + k] == b@[ni + k]@);
            lemma_clen_mono(views(b@), ni as int, k + 1, len as int);
        }
        let mut em: Vec<bool> = Vec::new();
        let mut p: usize = 0;
        while p < m
            invariant
                p <= m,
                m == t@.len(),
                off + m <= bl,
                em@.len() == p,
                forall|q: int| 0 <= q < p ==> em@[q] == new_emph(char_ops@, off + q),
            decreases m - p,
        {
            let bit = emph_new_at(char_ops, off + p);
            em.push(bit);
            p = p + 1;
        }
        let ghost em_g = em@;
        proof {
            assert(em_g =~= new_mask(views(b@), ni as int, k as int, char_ops@));
        }
        let ghost before = recs@;
        recs.push(RecE { sign: '+', old: Option::None, new: Some(ni + k + 1), text: t, em });
        off = off + m;
        k = k + 1;
        proof {
            lemma_ins_recs_index(views(b@), ni as int, k - 1, char_ops@);
            lemma_ins_recs_index(views(b@), ni as int, k as int, char_ops@);
            let rs = rviews(recs@);
            let tgt = base + ins_recs(views(b@), ni as int, k as int, char_ops@);
            assert(rs.len() == tgt.len());
            assert forall|j: int| 0 <= j < rs.len() implies rs[j] == tgt[j] by {
                assert(rs[j] == rview(recs@[j]));
                if j < before.len() {
                    assert(recs@[j] == before[j]);
                    assert(rview(before[j]) == rviews(before)[j]);
                    assert(rviews(before)[j] == (base + ins_recs(
                        views(b@),
                        ni as int,
                        k - 1,
                        char_ops@,
                    ))[j]);
                } else {
                    assert(recs@[j].sign == '+');
                    assert(recs@[j].text == t);
                    assert(recs@[j].em@ == em_g);
                    assert(views(b@)[ni + (j - base.len())] == b@[ni + (j - base.len())]@);
                }
            }
            assert(rs =~= tgt);
        }
    }
}

/// Whether each record is near a change and therefore shown.
#[verifier::loop_isolation(false)]
fn kept_flags(recs: &Vec<RecE>) -> (r: Vec<bool>)
    ensures
        r@.len() == recs@.len(),
        forall|i: int| 0 <= i < recs@.len() ==> r@[i] == kept(rviews(recs@), i),
{
    let ghost m = rviews(recs@);
    let n = recs.len();
    let mut flags: Vec<bool> = Vec::new();
    let mut i: usize = 0;
    while i < n
        invariant
            i <= n,
            n == recs@.len(),
            m == rviews(recs@),
            m.len() == n,
            flags@.len() == i,
            forall|t: int| 0 <= t < i ==> flags@[t] == kept(m, t),
        decreases n - i,
    {
        let lo: usize = if i >= 3 { i - 3 } else { 0 };
        let w: usize = if i >= 3 { 7 } else { i + 4 };
        let mut found = false;
        let mut j = lo;
        while j < n && j - lo < w
            invariant
                lo <= j,
                j <= n,
                j <= lo + w,
                found == exists|t: int| lo <= t < j && t < n && (#[trigger] m[t]).sign != ' ',
            decreases n - j,
        {
            let sg = recs[j].sign;
            proof {
                assert(m[j as int].sign == sg);
            }
            if sg != ' ' {
                found = true;
            }
            j = j + 1;
        }
        proof {
            assert(j == n || j == lo + w);
        }
        proof {
            assert(found == kept(m, i as int)) by {
                if found {
                    let t = choose|t: int| lo <= t < j && t < n && (#[trigger] m[t]).sign != ' ';
                    assert(i - 3 <= t <= i + 3);
                } else {
                    if kept(m, i as int) {
                        let t = choose|t: int|
                            0 <= t < m.len() && i - 3 <= t <= i + 3 && (#[trigger] m[t]).sign
                                != ' ';
                        assert(lo <= t < j);
                    }
                }
            }
        }
        flags.push(found);
        i = i + 1;
    }
    flags
}

/// Appends the eighty-dash separator rule.
fn push_sep(out: &mut Vec<char>)
    ensures
        final(out)@ == old(out)@ + separator(),
{
    let mut d: usize = 0;
    while d < 80
        invariant
            d <= 80,
            out@ =~= old(out)@ + dashes(d as nat),
        decreases 80 - d,
    {
        out.push('-');
        d = d + 1;
    }
    out.push('\n');
    proof {
        assert(out@ =~= old(out)@ + separator());
    }
}

/// Appends the line's text with its emphasized sub-spans wrapped in the
/// emphasis codes; the text's own characters are appended unchanged.
#[verifier::loop_isolation(false)]
#[verifier::rlimit(60)]
fn push_emph(out: &mut Vec<char>, text: &Vec<char>, em: &Vec<bool>)
    ensures
        final(out)@ == old(out)@ + emph_render(text@, em@),
{
    let n = text.len();
    if em.len() != n {
        push_all(out, text);
        proof {
            assert(out@ =~= old(out)@ + emph_render(text@, em@));
        }
        return ;
    }
    let mut i: usize = 0;
    while i < n
        invariant
            i <= n,
            n == text@.len(),
            em@.len() == n,
            out@ =~= old(out)@ + er_prefix(text@, em@, i as int),
        decreases n - i,
    {
        if em[i] && (i == 0 || !em[i - 1]) {
            out.push('\u{1b}');
            out.push('[');
            out.push('4');
            out.push('m');
        }
        out.push(text[i]);
        if em[i] && (i + 1 == n || !em[i + 1]) {
            out.push('\u{1b}');
            out.push('[');
            out.push('2');
            out.push('4');
            out.push('m');
        }
        i = i + 1;
        proof {
            assert(out@ =~= old(out)@ + er_prefix(text@, em@, i as int));
        }
    }
    proof {
        assert(out@ =~= old(out)@ + emph_render(text@, em@));
    }
}

/// Appends one rendered diff line.
fn push_line(out: &mut Vec<char>, rec: &RecE)
    ensures
        final(out)@ == old(out)@ + line_render(rview(*rec)),
{
    push_pad4(out, rec.old);
    push_pad4(out, rec.new);
    out.push(' ');
    out.push('|');
    out.push(rec.sign);
    let tc = chars_of(rec.text.as_str());
    push_emph(out, &tc, &rec.em);
    if tc.len() == 0 || tc[tc.len() - 1] != '\n' {
        out.push('\n');
        proof {
            assert(out@ =~= old(out)@ + line_render(rview(*rec)));
        }
    } else {
        proof {
            assert(out@ =~= old(out)@ + line_render(rview(*rec)));
        }
    }
}

/// Renders the kept records, separators between hunks.
#[verifier::loop_isolation(false)]
#[verifier::rlimit(100)]
fn render_recs(recs: &Vec<RecE>) -> (r: Vec<char>)
    ensures
        r@ == rend(rviews(recs@), recs@.len() as int),
{
    let ghost m = rviews(recs@);
    let flags = kept_flags(recs);
    let n = recs.len();
    let mut out: Vec<char> = Vec::new();
    let mut seen = false;
    let mut i: usize = 0;
    while i < n
        invariant
            i <= n,
            n == recs@.len(),
            m == rviews(recs@),
            m.len() == n,
            flags@.len() == n,
            forall|t: int| 0 <= t < n ==> flags@[t] == kept(m, t),
            seen == kept_before(m, i as int),
            out@ =~= rend(m, i as int),
        decreases n - i,
    {
        if flags[i] {
            if i > 0 && !flags[i - 1] && seen {
                push_sep(&mut out);
            }
            push_line(&mut out, &recs[i]);
            proof {
                assert(rview(recs@[i as int]) == m[i as int]);
            }
        }
        let ghost old_seen = seen;
        if flags[i] {
            seen = true;
        }
        i = i + 1;
        proof {
            assert(kept_before(m, i as int) == (old_seen || kept(m, i - 1)));
            assert(out@ =~= rend(m, i as int));
        }
    }
    out
}

/// Appends one four-column line-index cell.
fn push_pad4(out: &mut Vec<char>, o: Option<usize>)
    ensures
        final(out)@ == old(out)@ + pad4(oint(o)),
{
    match o {
        Option::None => {
            push_spaces(out, 4);
        },
        Option::Some(u) => {
            let ghost base = out@;
            let start = out.len();
            push_dec(out, u);
            let end = out.len();
            let width = end - start;
            proof {
                assert(width == dec_of(u as nat).len());
            }
            if width < 4 {
                push_spaces(out, 4 - width);
                proof {
                    assert(out@ =~= base + pad4(oint(o)));
                }
            } else {
                proof {
                    assert(out@ =~= base + pad4(oint(o)));
                }
            }
        },
    }
}

/// Computes the line diff of two texts and renders it: hunks of changed
/// lines with three context lines, index columns, and sign columns, with a
/// dashed rule between hunks. Identical inputs render to the empty text.
pub fn diff_text(text1: &str, text2: &str) -> (r: Result<String, XdiffError>)
    ensures
        r is Ok,
        valid_ops(
            diff_ops_of(lines_from(text1@, 0), lines_from(text2@, 0)),
            lines_from(text1@, 0),
            lines_from(text2@, 0),
        ),
        r->Ok_0@ == rendered(
            diff_ops_of(lines_from(text1@, 0), lines_from(text2@, 0)),
            lines_from(text1@, 0),
            lines_from(text2@, 0),
        ),
        text1@ == text2@ ==> r->Ok_0@ == Seq::<char>::empty(),
{
    let c1 = chars_of(text1);
    let c2 = chars_of(text2);
    let l1 = split_lines(&c1);
    let l2 = split_lines(&c2);
    let ops = diff_ops(&l1, &l2);
    let recs = build_records(&ops, &l1, &l2);
    let out = render_recs(&recs);
    let s = chars_to_string(&out);
    proof {
        assert(ops@ == diff_ops_of(lines_from(text1@, 0), lines_from(text2@, 0)));
        if text1@ == text2@ {
            assert(lines_from(text1@, 0) == lines_from(text2@, 0));
            lemma_equal_ops_render_empty(ops@, lines_from(text1@, 0), lines_from(text2@, 0));
        }
    }
    Ok(s)
}

} // verus!
