//! The `.tpl` file format: text with `{{ expr }}` blocks, whose Lua
//! expressions are evaluated by the runtime, and `%{{ ... }}%` blocks, which
//! emit their content with literal `{{`/`}}` delimiters.
use crate::text::{chars_of, push_char, str_eq, string_from_range, trim, trim_seq};
use vstd::prelude::*;

verus! {

/// A piece of a template.
#[derive(Debug)]
pub enum Segment {
    /// Text copied to the output.
    Text(String),
    /// A Lua expression (trimmed), replaced by its value.
    Expr(String),
}

pub enum SegView {
    Text(Seq<char>),
    Expr(Seq<char>),
}

impl View for Segment {
    type V = SegView;

    open spec fn view(&self) -> SegView {
        match self {
            Segment::Text(s) => SegView::Text(s@),
            Segment::Expr(s) => SegView::Expr(s@),
        }
    }
}

/// Why a template could not be read.
#[derive(Debug)]
pub enum TemplateError {
    /// `%{{` without a later `}}%`.
    UnterminatedLiteral,
}

pub enum TemplateErrorView {
    UnterminatedLiteral,
}

impl View for TemplateError {
    type V = TemplateErrorView;

    open spec fn view(&self) -> TemplateErrorView {
        match self {
            TemplateError::UnterminatedLiteral => TemplateErrorView::UnterminatedLiteral,
        }
    }
}

impl TemplateError {
    /// The message shown to the user.
    pub fn message(&self) -> (m: String)
        ensures
            m@ == match self@ {
                TemplateErrorView::UnterminatedLiteral => "unterminated literal block"@,
            },
    {
        match self {
            TemplateError::UnterminatedLiteral => "unterminated literal block".to_owned(),
        }
    }
}

/// Whether `pat` occurs in `s` at index `i`.
pub open spec fn starts_at(s: Seq<char>, i: int, pat: Seq<char>) -> bool {
    0 <= i && i + pat.len() <= s.len() && s.subrange(i, i + pat.len()) == pat
}

/// The first index `j >= from` where `}}%` starts.
pub open spec fn find_literal_end(s: Seq<char>, from: int) -> Option<int>
    decreases s.len() - from,
{
    if from < 0 || from + 3 > s.len() {
        None
    } else if s[from] == '}' && s[from + 1] == '}' && s[from + 2] == '%' {
        Some(from)
    } else {
        find_literal_end(s, from + 1)
    }
}

/// The index of the `}}` that closes an expression block, scanning from `k`;
/// `quote` is the quote character of the string literal being read, if any.
/// Inside a literal a backslash escapes the next character.
pub open spec fn find_expr_end(s: Seq<char>, k: int, quote: Option<char>) -> Option<int>
    decreases s.len() - k,
{
    if k < 0 || k >= s.len() {
        None
    } else {
        match quote {
            None => if k + 1 < s.len() && s[k] == '}' && s[k + 1] == '}' {
                Some(k)
            } else if s[k] == '"' || s[k] == '\'' {
                find_expr_end(s, k + 1, Some(s[k]))
            } else {
                find_expr_end(s, k + 1, None)
            },
            Some(q) => if s[k] == '\\' {
                if k + 1 < s.len() {
                    find_expr_end(s, k + 2, quote)
                } else {
                    None
                }
            } else if s[k] == q {
                find_expr_end(s, k + 1, None)
            } else {
                find_expr_end(s, k + 1, quote)
            },
        }
    }
}

pub open spec fn has_pipe(e: Seq<char>) -> bool {
    exists|i: int| 0 <= i < e.len() && e[i] == '|'
}

pub proof fn lemma_literal_end_bounds(s: Seq<char>, from: int)
    ensures
        find_literal_end(s, from) matches Some(j) ==> from <= j && j + 3 <= s.len(),
    decreases s.len() - from,
{
    if !(from < 0 || from + 3 > s.len()) {
        lemma_literal_end_bounds(s, from + 1);
    }
}

pub proof fn lemma_expr_end_bounds(s: Seq<char>, k: int, quote: Option<char>)
    ensures
        find_expr_end(s, k, quote) matches Some(j) ==> k <= j && j + 2 <= s.len(),
    decreases s.len() - k,
{
    if !(k < 0 || k >= s.len()) {
        match quote {
            None => {
                if s[k] == '"' || s[k] == '\'' {
                    lemma_expr_end_bounds(s, k + 1, Some(s[k]));
                } else {
                    lemma_expr_end_bounds(s, k + 1, None);
                }
            },
            Some(q) => {
                if s[k] == '\\' {
                    if k + 1 < s.len() {
                        lemma_expr_end_bounds(s, k + 2, quote);
                    }
                } else if s[k] == q {
                    lemma_expr_end_bounds(s, k + 1, None);
                } else {
                    lemma_expr_end_bounds(s, k + 1, quote);
                }
            },
        }
    }
}

/// Whether an expression block starts at `i`: `{{`, then a non-empty
/// content, then the `}}` that closes it. An opening `{{` that starts no
/// such block is plain text.
pub open spec fn expr_block_at(s: Seq<char>, i: int) -> bool {
    &&& starts_at(s, i, "{{"@)
    &&& find_expr_end(s, i + 2, None) matches Some(k)
    &&& k > i + 2
}

/// The pending text as a segment list: nothing when it is empty.
pub open spec fn flush(cur: Seq<char>) -> Seq<SegView> {
    if cur.len() > 0 {
        seq![SegView::Text(cur)]
    } else {
        Seq::empty()
    }
}

/// The segments of `s` from index `i` on, `cur` being text read but not yet
/// emitted. Adjacent text, literal blocks included, forms one segment.
pub open spec fn tokenize_from(s: Seq<char>, i: int, cur: Seq<char>) -> Result<
    Seq<SegView>,
    TemplateErrorView,
>
    decreases s.len() - i,
{
    if i < 0 || i >= s.len() {
        Ok(flush(cur))
    } else if starts_at(s, i, "%{{"@) {
        match find_literal_end(s, i + 3) {
            None => Err(TemplateErrorView::UnterminatedLiteral),
            Some(j) => {
                proof {
                    lemma_literal_end_bounds(s, i + 3);
                }
                tokenize_from(s, j + 3, cur + seq!['{', '{'] + s.subrange(i + 3, j) + seq!['}', '}'])
            },
        }
    } else if expr_block_at(s, i) {
        let k = find_expr_end(s, i + 2, None)->0;
        proof {
            lemma_expr_end_bounds(s, i + 2, None);
        }
        let e = trim_seq(s.subrange(i + 2, k));
        match tokenize_from(s, k + 2, Seq::empty()) {
            Ok(rest) => Ok(flush(cur) + seq![SegView::Expr(e)] + rest),
            Err(err) => Err(err),
        }
    } else {
        tokenize_from(s, i + 1, cur.push(s[i]))
    }
}

/// The segments of a template text.
pub open spec fn tokenize_spec(s: Seq<char>) -> Result<Seq<SegView>, TemplateErrorView> {
    tokenize_from(s, 0, Seq::empty())
}

/// The text that segments render to, expressions replaced by `vals` in order.
pub open spec fn assemble_spec(segs: Seq<SegView>, vals: Seq<Seq<char>>) -> Seq<char>
    decreases segs.len(),
{
    if segs.len() == 0 {
        Seq::empty()
    } else {
        match segs[0] {
            SegView::Text(t) => t + assemble_spec(segs.drop_first(), vals),
            SegView::Expr(_) => if vals.len() > 0 {
                vals[0] + assemble_spec(segs.drop_first(), vals.drop_first())
            } else {
                assemble_spec(segs.drop_first(), vals)
            },
        }
    }
}

/// How many expressions the segments hold.
pub open spec fn expr_count(segs: Seq<SegView>) -> nat
    decreases segs.len(),
{
    if segs.len() == 0 {
        0
    } else {
        match segs[0] {
            SegView::Expr(_) => 1 + expr_count(segs.drop_first()),
            SegView::Text(_) => expr_count(segs.drop_first()),
        }
    }
}

fn starts_at_exec(v: &Vec<char>, i: usize, pat: &Vec<char>) -> (b: bool)
    requires
        i <= v.len(),
    ensures
        b == starts_at(v@, i as int, pat@),
{
    if pat.len() > v.len() - i {
        return false;
    }
    let mut k: usize = 0;
    while k < pat.len()
        invariant
            i + pat.len() <= v.len(),
            k <= pat.len(),
            forall|m: int| 0 <= m < k ==> v@[i + m] == pat@[m],
        decreases pat.len() - k,
    {
        if v[i + k] != pat[k] {
            assert(v@.subrange(i as int, i + pat.len())[k as int] != pat@[k as int]);
            return false;
        }
        k = k + 1;
    }
    assert(v@.subrange(i as int, i + pat.len()) =~= pat@);
    true
}

fn literal_end(v: &Vec<char>, from: usize) -> (res: Option<usize>)
    ensures
        match res {
            Some(j) => find_literal_end(v@, from as int) == Some(j as int) && from <= j && j + 3
                <= v.len(),
            None => find_literal_end(v@, from as int) is None,
        },
    decreases v.len() - from,
{
    if from >= v.len() || v.len() - from < 3 {
        None
    } else if v[from] == '}' && v[from + 1] == '}' && v[from + 2] == '%' {
        Some(from)
    } else {
        literal_end(v, from + 1)
    }
}

fn expr_end(v: &Vec<char>, k: usize, quote: Option<char>) -> (res: Option<usize>)
    ensures
        match res {
            Some(j) => find_expr_end(v@, k as int, quote) == Some(j as int) && k <= j && j + 2
                <= v.len(),
            None => find_expr_end(v@, k as int, quote) is None,
        },
    decreases v.len() - k,
{
    if k >= v.len() {
        return None;
    }
    match quote {
        None => {
            if k + 1 < v.len() && v[k] == '}' && v[k + 1] == '}' {
                Some(k)
            } else if v[k] == '"' || v[k] == '\'' {
                expr_end(v, k + 1, Some(v[k]))
            } else {
                expr_end(v, k + 1, None)
            }
        },
        Some(q) => {
            if v[k] == '\\' {
                if k + 1 < v.len() {
                    expr_end(v, k + 2, quote)
                } else {
                    None
                }
            } else if v[k] == q {
                expr_end(v, k + 1, None)
            } else {
                expr_end(v, k + 1, quote)
            }
        },
    }
}

fn pipe_in(e: &str) -> (b: bool)
    ensures
        b == has_pipe(e@),
{
    let v = chars_of(e);
    let mut i: usize = 0;
    while i < v.len()
        invariant
            v@ == e@,
            i <= v.len(),
            forall|j: int| 0 <= j < i ==> v@[j] != '|',
        decreases v.len() - i,
    {
        if v[i] == '|' {
            return true;
        }
        i = i + 1;
    }
    false
}

pub open spec fn segs_view(v: Seq<Segment>) -> Seq<SegView> {
    v.map_values(|s: Segment| s@)
}

/// Moves the pending text, if any, into the segment list.
fn flush_exec(out: &mut Vec<Segment>, cur: &mut Vec<char>)
    ensures
        segs_view(final(out)@) == segs_view(old(out)@) + flush(old(cur)@),
        final(cur)@ == Seq::<char>::empty(),
{
    if cur.len() > 0 {
        let t = crate::text::string_from_chars(cur);
        let ghost before = segs_view(out@);
        out.push(Segment::Text(t));
        assert(segs_view(out@) =~= before + flush(old(cur)@));
    } else {
        assert(segs_view(out@) =~= segs_view(out@) + flush(cur@));
    }
    *cur = Vec::new();
}

/// Cuts a template text into text and expression segments.
pub fn tokenize(input: &str) -> (res: Result<Vec<Segment>, TemplateError>)
    ensures
        match res {
            Ok(v) => tokenize_spec(input@) == Ok::<Seq<SegView>, TemplateErrorView>(segs_view(v@)),
            Err(e) => tokenize_spec(input@) == Err::<Seq<SegView>, TemplateErrorView>(e@),
        },
{
    proof {
        reveal_strlit("%{{");
        reveal_strlit("{{");
    }
    let v = chars_of(input);
    let open_lit = chars_of("%{{");
    let open_expr = chars_of("{{");
    let mut out: Vec<Segment> = Vec::new();
    let mut cur: Vec<char> = Vec::new();
    let mut i: usize = 0;
    while i < v.len()
        invariant
            v@ == input@,
            open_lit@ == "%{{"@,
            open_expr@ == "{{"@,
            open_lit@ == seq!['%', '{', '{'],
            open_expr@ == seq!['{', '{'],
            i <= v.len(),
            tokenize_spec(input@) == match tokenize_from(v@, i as int, cur@) {
                Ok(r) => Ok(segs_view(out@) + r),
                Err(e) => Err(e),
            },
        decreases v.len() - i,
    {
        if starts_at_exec(&v, i, &open_lit) {
            match literal_end(&v, i + 3) {
                None => return Err(TemplateError::UnterminatedLiteral),
                Some(j) => {
                    let ghost old_cur = cur@;
                    cur.push('{');
                    cur.push('{');
                    let mut m = i + 3;
                    while m < j
                        invariant
                            i + 3 <= m <= j,
                            j + 3 <= v.len(),
                            cur@ == old_cur + seq!['{', '{'] + v@.subrange(i + 3, m as int),
                        decreases j - m,
                    {
                        cur.push(v[m]);
                        m = m + 1;
                        assert(cur@ =~= old_cur + seq!['{', '{'] + v@.subrange(i + 3, m as int));
                    }
                    cur.push('}');
                    cur.push('}');
                    assert(cur@ =~= old_cur + seq!['{', '{'] + v@.subrange(i + 3, j as int) + seq![
                        '}',
                        '}',
                    ]);
                    i = j + 3;
                },
            }
        } else {
            let end = if starts_at_exec(&v, i, &open_expr) {
                expr_end(&v, i + 2, None)
            } else {
                None
            };
            match end {
                Some(k) if k > i + 2 => {
                    assert(expr_block_at(v@, i as int));
                    let raw = string_from_range(&v, i + 2, k);
                    let e = trim(raw.as_str());
                    let ghost before = segs_view(out@);
                    let ghost old_cur = cur@;
                    flush_exec(&mut out, &mut cur);
                    let ghost mid = segs_view(out@);
                    out.push(Segment::Expr(e));
                    assert(segs_view(out@) =~= mid.push(SegView::Expr(e@)));
                    proof {
                        assert(cur@ =~= Seq::<char>::empty());
                        match tokenize_from(v@, k + 2, Seq::empty()) {
                            Ok(r) => {
                                assert(before + (flush(old_cur) + seq![SegView::Expr(e@)] + r)
                                    =~= segs_view(out@) + r);
                            },
                            Err(_) => {},
                        }
                    }
                    i = k + 2;
                },
                _ => {
                    assert(!expr_block_at(v@, i as int));
                    cur.push(v[i]);
                    i = i + 1;
                },
            }
        }
    }
    flush_exec(&mut out, &mut cur);
    Ok(out)
}

/// Renders segments with the expressions' values, in order.
pub fn assemble(segs: &Vec<Segment>, vals: &Vec<String>) -> (out: String)
    ensures
        out@ == assemble_spec(segs_view(segs@), vals@.map_values(|s: String| s@)),
{
    let ghost sv = segs_view(segs@);
    let ghost vv = vals@.map_values(|s: String| s@);
    let mut out = String::new();
    let mut i: usize = 0;
    let mut n: usize = 0;
    assert(sv.skip(0) =~= sv);
    assert(vv.skip(0) =~= vv);
    assert(out@ =~= Seq::<char>::empty());
    while i < segs.len()
        invariant
            i <= segs.len(),
            n <= vals.len(),
            sv == segs_view(segs@),
            vv == vals@.map_values(|s: String| s@),
            assemble_spec(sv, vv) == out@ + assemble_spec(sv.skip(i as int), vv.skip(n as int)),
        decreases segs.len() - i,
    {
        let ghost rest = sv.skip(i as int);
        assert(rest.drop_first() =~= sv.skip(i + 1));
        assert(rest[0] == segs@[i as int]@);
        match &segs[i] {
            Segment::Text(t) => {
                out.append(t.as_str());
            },
            Segment::Expr(_) => {
                if n < vals.len() {
                    assert(vv.skip(n as int)[0] == vals@[n as int]@);
                    assert(vv.skip(n as int).drop_first() =~= vv.skip(n + 1));
                    out.append(vals[n].as_str());
                    n = n + 1;
                }
            },
        }
        i = i + 1;
    }
    out
}

/// The message of a block written with the old pipe-helper syntax.
pub open spec fn pipe_msg() -> Seq<char> {
    "pipe helpers are no longer supported; use Lua expressions"@
}

/// The message of a block that failed to render, as a spec.
pub open spec fn render_err_spec(file: Seq<char>, expr: Seq<char>, message: Seq<char>) -> Seq<char> {
    "failed to render block {{ "@ + expr + " }} in "@ + file + ": "@ + message
}

/// Checks a block's expression before it is evaluated: an expression
/// holding `|` (the old pipe-helper syntax) is refused, with the block and
/// the file named.
pub fn check_block(file: &str, expr: &str) -> (res: Result<(), String>)
    ensures
        has_pipe(expr@) ==> (res matches Err(m) && m@ == render_err_spec(file@, expr@, pipe_msg())),
        !has_pipe(expr@) ==> res is Ok,
{
    if pipe_in(expr) {
        Err(render_err(file, expr, "pipe helpers are no longer supported; use Lua expressions"))
    } else {
        Ok(())
    }
}

/// The first expression, in order, that holds `|`.
pub open spec fn first_pipe(segs: Seq<SegView>) -> Option<Seq<char>>
    decreases segs.len(),
{
    if segs.len() == 0 {
        None
    } else {
        match segs[0] {
            SegView::Expr(e) => if has_pipe(e) {
                Some(e)
            } else {
                first_pipe(segs.drop_first())
            },
            SegView::Text(_) => first_pipe(segs.drop_first()),
        }
    }
}

/// What rendering the text of `file` gives when its expressions evaluate,
/// in order, to `vals`: the error of an unterminated literal block; else the
/// error of the first block in the old pipe-helper syntax; else the text.
pub open spec fn render_spec(s: Seq<char>, file: Seq<char>, vals: Seq<Seq<char>>) -> Result<Seq<char>, Seq<char>> {
    match tokenize_spec(s) {
        Err(_) => Err("unterminated literal block"@),
        Ok(segs) => match first_pipe(segs) {
            Some(e) => Err(render_err_spec(file, e, pipe_msg())),
            None => Ok(assemble_spec(segs, vals)),
        },
    }
}

/// Renders the template text of `file` whose expressions evaluate to
/// `vals`, in order, checking each block as it comes.
pub fn render_text(input: &str, file: &str, vals: &Vec<String>) -> (res: Result<String, String>)
    ensures
        match render_spec(input@, file@, vals@.map_values(|s: String| s@)) {
            Ok(t) => res matches Ok(out) && out@ == t,
            Err(m) => res matches Err(x) && x@ == m,
        },
{
    let segs = match tokenize(input) {
        Ok(segs) => segs,
        Err(e) => {
            let m = e.message();
            proof {
                reveal_strlit("unterminated literal block");
            }
            return Err(m);
        },
    };
    let ghost sv = segs_view(segs@);
    let mut i: usize = 0;
    assert(sv.skip(0) =~= sv);
    while i < segs.len()
        invariant
            i <= segs.len(),
            sv == segs_view(segs@),
            tokenize_spec(input@) == Ok::<Seq<SegView>, TemplateErrorView>(sv),
            first_pipe(sv) == first_pipe(sv.skip(i as int)),
        decreases segs.len() - i,
    {
        let ghost rest = sv.skip(i as int);
        assert(rest.drop_first() =~= sv.skip(i + 1));
        assert(rest[0] == segs@[i as int]@);
        if let Segment::Expr(e) = &segs[i] {
            match check_block(file, e.as_str()) {
                Ok(()) => {},
                Err(m) => {
                    assert(first_pipe(rest) == Some(e@));
                    return Err(m);
                },
            }
        }
        i = i + 1;
    }
    Ok(assemble(&segs, vals))
}

/// The message of a block that failed to render.
pub fn render_err(file: &str, expr: &str, message: &str) -> (out: String)
    ensures
        out@ == "failed to render block {{ "@ + expr@ + " }} in "@ + file@ + ": "@ + message@,
{
    let mut out = "failed to render block {{ ".to_owned();
    out.append(expr);
    out.append(" }} in ");
    out.append(file);
    out.append(": ");
    out.append(message);
    out
}


/// Whether `{{` occurs in `s` at or after index `i`.
pub open spec fn has_open_from(s: Seq<char>, i: int) -> bool {
    exists|j: int| i <= j && #[trigger] starts_at(s, j, "{{"@)
}

proof fn lemma_plain_suffix(s: Seq<char>, i: int, cur: Seq<char>)
    requires
        0 <= i <= s.len(),
        !has_open_from(s, i),
    ensures
        tokenize_from(s, i, cur) == Ok::<Seq<SegView>, TemplateErrorView>(flush(cur + s.skip(i))),
    decreases s.len() - i,
{
    reveal_strlit("{{");
    reveal_strlit("%{{");
    if i >= s.len() {
        assert(cur + s.skip(i) =~= cur);
    } else {
        if starts_at(s, i, "%{{"@) {
            let w = s.subrange(i, i + 3);
            assert(w[1] == '{' && w[2] == '{');
            assert(s.subrange(i + 1, i + 3) =~= "{{"@);
            assert(starts_at(s, i + 1, "{{"@));
            assert(false);
        }
        if starts_at(s, i, "{{"@) {
            assert(false);
        }
        lemma_plain_suffix(s, i + 1, cur.push(s[i]));
        assert(cur.push(s[i]) + s.skip(i + 1) =~= cur + s.skip(i));
    }
}

proof fn lemma_assemble_text(t: Seq<char>, vals: Seq<Seq<char>>)
    ensures
        assemble_spec(flush(t), vals) == t,
        expr_count(flush(t)) == 0,
{
    if t.len() > 0 {
        let segs = flush(t);
        assert(segs.drop_first() =~= Seq::<SegView>::empty());
        assert(assemble_spec(Seq::<SegView>::empty(), vals) == Seq::<char>::empty());
        assert(expr_count(Seq::<SegView>::empty()) == 0);
        assert(t + Seq::<char>::empty() =~= t);
    } else {
        assert(flush(t) =~= Seq::<SegView>::empty());
        assert(t =~= Seq::<char>::empty());
    }
}

/// A text without `{{` renders to itself, whatever the expressions' values.
pub proof fn law_plain_text_renders_unchanged(s: Seq<char>, vals: Seq<Seq<char>>)
    requires
        !has_open_from(s, 0),
    ensures
        tokenize_spec(s) == Ok::<Seq<SegView>, TemplateErrorView>(flush(s)),
        assemble_spec(flush(s), vals) == s,
        expr_count(flush(s)) == 0,
{
    lemma_plain_suffix(s, 0, Seq::empty());
    assert(Seq::<char>::empty() + s.skip(0) =~= s);
    lemma_assemble_text(s, vals);
}

/// Whether `}}%` occurs inside `t`.
pub open spec fn has_literal_close(t: Seq<char>) -> bool {
    exists|j: int| #[trigger] starts_at(t, j, "}}%"@)
}

proof fn lemma_literal_end_at(s: Seq<char>, from: int, end: int)
    requires
        0 <= from <= end,
        end + 3 <= s.len(),
        s[end] == '}' && s[end + 1] == '}' && s[end + 2] == '%',
        forall|j: int| from <= j < end ==> !(#[trigger] s[j] == '}' && s[j + 1] == '}' && s[j + 2] == '%'),
    ensures
        find_literal_end(s, from) == Some(end),
    decreases end - from,
{
    if from < end {
        lemma_literal_end_at(s, from + 1, end);
    }
}

/// A literal block `%{{t}}%` renders as `{{t}}`, whatever `t` holds (so long
/// as `t` does not itself close the block).
pub proof fn law_literal_block_renders_delimiters(t: Seq<char>, vals: Seq<Seq<char>>)
    requires
        !has_literal_close(t),
    ensures
        tokenize_spec("%{{"@ + t + "}}%"@) == Ok::<Seq<SegView>, TemplateErrorView>(
            seq![SegView::Text("{{"@ + t + "}}"@)],
        ),
        assemble_spec(seq![SegView::Text("{{"@ + t + "}}"@)], vals) == "{{"@ + t + "}}"@,
{
    reveal_strlit("%{{");
    reveal_strlit("}}%");
    reveal_strlit("{{");
    reveal_strlit("}}");
    let s = "%{{"@ + t + "}}%"@;
    let n = t.len() as int;
    assert(s.len() == n + 6);
    assert(starts_at(s, 0, "%{{"@)) by {
        assert(s.subrange(0, 3) =~= "%{{"@);
    }
    assert forall|j: int| 3 <= j < 3 + n implies !(#[trigger] s[j] == '}' && s[j + 1] == '}'
        && s[j + 2] == '%') by {
        if s[j] == '}' && s[j + 1] == '}' && s[j + 2] == '%' {
            if j + 2 < 3 + n {
                assert(t.subrange(j - 3, j) =~= "}}%"@);
                assert(starts_at(t, j - 3, "}}%"@));
            }
        }
    }
    lemma_literal_end_at(s, 3, 3 + n);
    let cur = seq!['{', '{'] + s.subrange(3, 3 + n) + seq!['}', '}'];
    assert(cur =~= "{{"@ + t + "}}"@);
    assert(tokenize_from(s, 6 + n, cur) == Ok::<Seq<SegView>, TemplateErrorView>(flush(cur)));
    assert(cur.len() > 0);
    assert(flush(cur) =~= seq![SegView::Text(cur)]);
    lemma_assemble_text(cur, vals);
}


proof fn lemma_starts_at_shift(p: Seq<char>, s: Seq<char>, i: int, pat: Seq<char>)
    requires
        0 <= i,
    ensures
        starts_at(p + s, p.len() + i, pat) == starts_at(s, i, pat),
{
    let q = p + s;
    let n = p.len() as int;
    if i + pat.len() <= s.len() {
        assert(q.subrange(n + i, n + i + pat.len()) =~= s.subrange(i, i + pat.len()));
    }
}

proof fn lemma_literal_end_shift(p: Seq<char>, s: Seq<char>, from: int)
    requires
        0 <= from,
    ensures
        find_literal_end(p + s, p.len() + from) == match find_literal_end(s, from) {
            Some(j) => Some(j + p.len()),
            None => None::<int>,
        },
    decreases s.len() - from,
{
    let q = p + s;
    let n = p.len() as int;
    if from + 3 <= s.len() {
        assert(q[n + from] == s[from] && q[n + from + 1] == s[from + 1] && q[n + from + 2] == s[from
            + 2]);
        lemma_literal_end_shift(p, s, from + 1);
    }
}

proof fn lemma_expr_end_shift(p: Seq<char>, s: Seq<char>, k: int, quote: Option<char>)
    requires
        0 <= k,
    ensures
        find_expr_end(p + s, p.len() + k, quote) == match find_expr_end(s, k, quote) {
            Some(j) => Some(j + p.len()),
            None => None::<int>,
        },
    decreases s.len() - k,
{
    let q = p + s;
    let n = p.len() as int;
    if k < s.len() {
        assert(q[n + k] == s[k]);
        if k + 1 < s.len() {
            assert(q[n + k + 1] == s[k + 1]);
        }
        match quote {
            None => {
                if s[k] == '"' || s[k] == '\'' {
                    lemma_expr_end_shift(p, s, k + 1, Some(s[k]));
                } else {
                    lemma_expr_end_shift(p, s, k + 1, None);
                }
            },
            Some(qc) => {
                if s[k] == '\\' {
                    if k + 1 < s.len() {
                        lemma_expr_end_shift(p, s, k + 2, quote);
                    }
                } else if s[k] == qc {
                    lemma_expr_end_shift(p, s, k + 1, None);
                } else {
                    lemma_expr_end_shift(p, s, k + 1, quote);
                }
            },
        }
    }
}

/// Reading `s` after a prefix reads as reading `s` alone.
proof fn lemma_tokenize_shift(p: Seq<char>, s: Seq<char>, i: int, cur: Seq<char>)
    requires
        0 <= i,
    ensures
        tokenize_from(p + s, p.len() + i, cur) == tokenize_from(s, i, cur),
    decreases s.len() - i,
{
    let q = p + s;
    let n = p.len() as int;
    if i < s.len() {
        lemma_starts_at_shift(p, s, i, "%{{"@);
        lemma_starts_at_shift(p, s, i, "{{"@);
        lemma_literal_end_shift(p, s, i + 3);
        lemma_expr_end_shift(p, s, i + 2, None);
        lemma_literal_end_bounds(s, i + 3);
        lemma_expr_end_bounds(s, i + 2, None);
        assert(q[n + i] == s[i]);
        if starts_at(s, i, "%{{"@) {
            if let Some(j) = find_literal_end(s, i + 3) {
                assert(q.subrange(n + i + 3, n + j) =~= s.subrange(i + 3, j));
                lemma_tokenize_shift(p, s, j + 3, cur + seq!['{', '{'] + s.subrange(i + 3, j) + seq![
                    '}',
                    '}',
                ]);
            }
        } else if expr_block_at(s, i) {
            let k = find_expr_end(s, i + 2, None)->0;
            assert(q.subrange(n + i + 2, n + k) =~= s.subrange(i + 2, k));
            lemma_tokenize_shift(p, s, k + 2, Seq::empty());
        } else {
            lemma_tokenize_shift(p, s, i + 1, cur.push(s[i]));
        }
    }
}

proof fn lemma_assemble_flush_prefix(x: Seq<char>, b: Seq<SegView>, vals: Seq<Seq<char>>)
    ensures
        assemble_spec(flush(x) + b, vals) == x + assemble_spec(b, vals),
        expr_count(flush(x) + b) == expr_count(b),
{
    if x.len() > 0 {
        let r = flush(x) + b;
        assert(r[0] == SegView::Text(x));
        assert(r.drop_first() =~= b);
    } else {
        assert(flush(x) + b =~= b);
        assert(x + assemble_spec(b, vals) =~= assemble_spec(b, vals));
    }
}

/// Text already read before position `i` comes out in front of what the
/// rest renders to.
proof fn lemma_cur_prefix(s: Seq<char>, i: int, c0: Seq<char>, c: Seq<char>, vals: Seq<Seq<char>>)
    requires
        0 <= i,
    ensures
        match tokenize_from(s, i, c) {
            Ok(r) => tokenize_from(s, i, c0 + c) matches Ok(r2) && assemble_spec(r2, vals) == c0
                + assemble_spec(r, vals) && expr_count(r2) == expr_count(r),
            Err(e) => tokenize_from(s, i, c0 + c) == Err::<Seq<SegView>, TemplateErrorView>(e),
        },
    decreases s.len() - i,
{
    if i >= s.len() {
        lemma_assemble_text(c0 + c, vals);
        lemma_assemble_text(c, vals);
    } else if starts_at(s, i, "%{{"@) {
        lemma_literal_end_bounds(s, i + 3);
        if let Some(j) = find_literal_end(s, i + 3) {
            let mid = seq!['{', '{'] + s.subrange(i + 3, j) + seq!['}', '}'];
            lemma_cur_prefix(s, j + 3, c0, c + mid, vals);
            assert(c + seq!['{', '{'] + s.subrange(i + 3, j) + seq!['}', '}'] =~= c + mid);
            assert((c0 + c) + seq!['{', '{'] + s.subrange(i + 3, j) + seq!['}', '}'] =~= c0 + (c
                + mid));
        }
    } else if expr_block_at(s, i) {
        lemma_expr_end_bounds(s, i + 2, None);
        let k = find_expr_end(s, i + 2, None)->0;
        let e = trim_seq(s.subrange(i + 2, k));
        if let Ok(rest) = tokenize_from(s, k + 2, Seq::empty()) {
            let tail = seq![SegView::Expr(e)] + rest;
            lemma_assemble_flush_prefix(c0 + c, tail, vals);
            lemma_assemble_flush_prefix(c, tail, vals);
            assert(flush(c0 + c) + seq![SegView::Expr(e)] + rest =~= flush(c0 + c) + tail);
            assert(flush(c) + seq![SegView::Expr(e)] + rest =~= flush(c) + tail);
            assert(c0 + c + assemble_spec(tail, vals) =~= c0 + (c + assemble_spec(tail, vals)));
        }
    } else {
        lemma_cur_prefix(s, i + 1, c0, c.push(s[i]), vals);
        assert((c0 + c).push(s[i]) =~= c0 + c.push(s[i]));
    }
}

/// Whether the character at `j` is read as text: no literal block and no
/// expression block starts there.
pub open spec fn text_at(s: Seq<char>, j: int) -> bool {
    !starts_at(s, j, "%{{"@) && !expr_block_at(s, j)
}

/// Characters that open no block are read as text, one by one.
proof fn lemma_text_steps(q: Seq<char>, i: int, n: int, cur: Seq<char>)
    requires
        0 <= i <= n <= q.len(),
        forall|j: int| i <= j < n ==> #[trigger] text_at(q, j),
    ensures
        tokenize_from(q, i, cur) == tokenize_from(q, n, cur + q.subrange(i, n)),
    decreases n - i,
{
    if i == n {
        assert(cur + q.subrange(i, n) =~= cur);
    } else {
        assert(text_at(q, i));
        lemma_text_steps(q, i + 1, n, cur.push(q[i]));
        assert(cur.push(q[i]) + q.subrange(i + 1, n) =~= cur + q.subrange(i, n));
    }
}

/// Text that opens no block is kept as it stands: a template made of such a
/// text `p` followed by `s` renders to `p` followed by what `s` renders to,
/// with the same expressions (and fails as `s` fails).
pub proof fn law_text_is_kept(p: Seq<char>, s: Seq<char>, vals: Seq<Seq<char>>)
    requires
        forall|j: int| 0 <= j < p.len() ==> #[trigger] text_at(p + s, j),
    ensures
        match tokenize_spec(s) {
            Ok(segs) => tokenize_spec(p + s) matches Ok(segs2) && assemble_spec(segs2, vals) == p
                + assemble_spec(segs, vals) && expr_count(segs2) == expr_count(segs),
            Err(e) => tokenize_spec(p + s) == Err::<Seq<SegView>, TemplateErrorView>(e),
        },
{
    let q = p + s;
    let n = p.len() as int;
    lemma_text_steps(q, 0, n, Seq::empty());
    assert(Seq::<char>::empty() + q.subrange(0, n) =~= p + Seq::<char>::empty());
    lemma_tokenize_shift(p, s, 0, p + Seq::<char>::empty());
    lemma_cur_prefix(s, 0, p, Seq::empty(), vals);
    assert(p + Seq::<char>::empty() =~= p);
}

/// A literal block renders as its content between `{{` and `}}`, followed by
/// what the rest of the template renders to (so long as the content does
/// not itself close the block).
pub proof fn law_literal_block_then_rest(t: Seq<char>, s: Seq<char>, vals: Seq<Seq<char>>)
    requires
        !has_literal_close(t),
    ensures
        match tokenize_spec(s) {
            Ok(segs) => tokenize_spec("%{{"@ + t + "}}%"@ + s) matches Ok(segs2) && assemble_spec(
                segs2,
                vals,
            ) == "{{"@ + t + "}}"@ + assemble_spec(segs, vals) && expr_count(segs2) == expr_count(
                segs,
            ),
            Err(e) => tokenize_spec("%{{"@ + t + "}}%"@ + s) == Err::<Seq<SegView>, TemplateErrorView>(
                e,
            ),
        },
{
    reveal_strlit("%{{");
    reveal_strlit("}}%");
    reveal_strlit("{{");
    reveal_strlit("}}");
    let b = "%{{"@ + t + "}}%"@;
    let q = b + s;
    let n = t.len() as int;
    assert(b.len() == n + 6);
    assert(starts_at(q, 0, "%{{"@)) by {
        assert(q.subrange(0, 3) =~= "%{{"@);
    }
    assert forall|j: int| 3 <= j < 3 + n implies !(#[trigger] q[j] == '}' && q[j + 1] == '}'
        && q[j + 2] == '%') by {
        if q[j] == '}' && q[j + 1] == '}' && q[j + 2] == '%' {
            if j + 2 < 3 + n {
                assert(t.subrange(j - 3, j) =~= "}}%"@);
                assert(starts_at(t, j - 3, "}}%"@));
            }
        }
    }
    assert(q[3 + n] == '}' && q[3 + n + 1] == '}' && q[3 + n + 2] == '%');
    lemma_literal_end_at(q, 3, 3 + n);
    let mid = seq!['{', '{'] + q.subrange(3, 3 + n) + seq!['}', '}'];
    assert(mid =~= "{{"@ + t + "}}"@);
    assert(Seq::<char>::empty() + mid =~= mid);
    lemma_tokenize_shift(b, s, 0, mid);
    lemma_cur_prefix(s, 0, mid, Seq::empty(), vals);
    assert(mid + Seq::<char>::empty() =~= mid);
}

// ---------------------------------------------------------------------------
// Rendering files and directories
// ---------------------------------------------------------------------------

/// Whether `s` ends with `suf`.
pub open spec fn ends_with(s: Seq<char>, suf: Seq<char>) -> bool {
    suf.len() <= s.len() && s.subrange(s.len() - suf.len(), s.len() as int) == suf
}

/// `s` with every trailing `suf` removed (`str::trim_end_matches`).
pub open spec fn trim_end_all(s: Seq<char>, suf: Seq<char>) -> Seq<char>
    decreases s.len(),
{
    if suf.len() > 0 && ends_with(s, suf) {
        trim_end_all(s.subrange(0, s.len() - suf.len()), suf)
    } else {
        s
    }
}

fn ends_with_exec(v: &Vec<char>, n: usize, suf: &Vec<char>) -> (b: bool)
    requires
        n <= v.len(),
    ensures
        b == ends_with(v@.subrange(0, n as int), suf@),
{
    let ghost s = v@.subrange(0, n as int);
    if suf.len() > n {
        return false;
    }
    let start = n - suf.len();
    let mut k: usize = 0;
    while k < suf.len()
        invariant
            start + suf.len() == n,
            n <= v.len(),
            s == v@.subrange(0, n as int),
            k <= suf.len(),
            forall|m: int| 0 <= m < k ==> v@[start + m] == suf@[m],
        decreases suf.len() - k,
    {
        if v[start + k] != suf[k] {
            assert(s.subrange(start as int, n as int)[k as int] == v@[start + k]);
            return false;
        }
        k = k + 1;
    }
    assert(s.subrange(start as int, n as int) =~= suf@);
    true
}

/// Removes every trailing `suf` from `s`.
pub fn trim_end_matches(s: &str, suf: &str) -> (out: String)
    ensures
        out@ == trim_end_all(s@, suf@),
{
    let v = chars_of(s);
    let w = chars_of(suf);
    let mut n: usize = v.len();
    assert(v@.subrange(0, n as int) =~= v@);
    if w.len() == 0 {
        return s.to_owned();
    }
    while ends_with_exec(&v, n, &w)
        invariant
            n <= v.len(),
            w@ == suf@,
            w@.len() > 0,
            trim_end_all(s@, suf@) == trim_end_all(v@.subrange(0, n as int), suf@),
        decreases n,
    {
        assert(v@.subrange(0, n as int).subrange(0, n - w.len()) =~= v@.subrange(
            0,
            n - w.len(),
        ));
        n = n - w.len();
    }
    string_from_range(&v, 0, n)
}

/// Where a file of a rendered directory goes: under `dst_dir`, or at its
/// own relative path when `dst_dir` is empty or `.`.
pub open spec fn dir_dest_spec(dst_dir: Seq<char>, rel: Seq<char>) -> Seq<char> {
    if dst_dir.len() == 0 || dst_dir == "."@ {
        rel
    } else {
        trim_end_all(dst_dir, "/"@) + "/"@ + rel
    }
}

/// How one file of a rendered directory is handled.
#[derive(Debug)]
pub enum DirItem {
    /// A template: rendered from `src` (relative to the template's files)
    /// to `dst`, which loses the `.tpl` suffix.
    Render { src: String, dst: String },
    /// Another file: copied to `dst`.
    Copy { dst: String },
}

pub enum DirItemView {
    Render { src: Seq<char>, dst: Seq<char> },
    Copy { dst: Seq<char> },
}

impl View for DirItem {
    type V = DirItemView;

    open spec fn view(&self) -> DirItemView {
        match self {
            DirItem::Render { src, dst } => DirItemView::Render { src: src@, dst: dst@ },
            DirItem::Copy { dst } => DirItemView::Copy { dst: dst@ },
        }
    }
}

/// The handling of the file `rel` (relative to the source directory
/// `src_dir`) when the directory is rendered into `dst_dir`.
pub open spec fn dir_item_spec(src_dir: Seq<char>, dst_dir: Seq<char>, rel: Seq<char>) -> DirItemView {
    let dst = dir_dest_spec(dst_dir, rel);
    if ends_with(rel, ".tpl"@) {
        DirItemView::Render {
            src: trim_end_all(src_dir, "/"@) + "/"@ + rel,
            dst: trim_end_all(dst, ".tpl"@),
        }
    } else {
        DirItemView::Copy { dst }
    }
}

/// In a rendered directory a file named `x.tpl` (with `x` not itself
/// ending in `.tpl`) is rendered and written as `x`, and any other file is
/// copied under its own name.
pub proof fn law_template_file_loses_suffix(src_dir: Seq<char>, base: Seq<char>, other: Seq<char>)
    requires
        !ends_with(base, ".tpl"@),
        !ends_with(other, ".tpl"@),
    ensures
        trim_end_all(base + ".tpl"@, ".tpl"@) == base,
        dir_item_spec(src_dir, Seq::empty(), base + ".tpl"@) matches DirItemView::Render { dst, .. }
            && dst == base,
        dir_item_spec(src_dir, Seq::empty(), other) == (DirItemView::Copy { dst: other }),
{
    reveal_strlit(".tpl");
    let t = base + ".tpl"@;
    assert(t.subrange(t.len() - 4, t.len() as int) =~= ".tpl"@);
    assert(t.subrange(0, t.len() - 4) =~= base);
    assert(ends_with(t, ".tpl"@));
    assert(trim_end_all(t, ".tpl"@) == trim_end_all(base, ".tpl"@));
}

/// A file that is not a template is copied under the destination
/// directory: for a destination `d` other than empty or `.`, to `d`
/// without its trailing `/`, then `/`, then the file's relative path; for
/// an empty or `.` destination, to the relative path itself.
pub proof fn law_copies_go_under_destination(src_dir: Seq<char>, d: Seq<char>, rel: Seq<char>)
    requires
        !ends_with(rel, ".tpl"@),
    ensures
        d.len() > 0 && d != "."@ ==> dir_item_spec(src_dir, d, rel) == (DirItemView::Copy {
            dst: trim_end_all(d, "/"@) + "/"@ + rel,
        }),
        d.len() == 0 || d == "."@ ==> dir_item_spec(src_dir, d, rel) == (DirItemView::Copy {
            dst: rel,
        }),
{
}

/// Decides how one file of a rendered directory is handled.
pub fn dir_item(src_dir: &str, dst_dir: &str, rel: &str) -> (item: DirItem)
    ensures
        item@ == dir_item_spec(src_dir@, dst_dir@, rel@),
{
    proof {
        reveal_strlit(".tpl");
    }
    let dst = if dst_dir.is_empty() || str_eq(dst_dir, ".") {
        rel.to_owned()
    } else {
        let mut d = trim_end_matches(dst_dir, "/");
        d.append("/");
        d.append(rel);
        d
    };
    let r = chars_of(rel);
    let suffix = chars_of(".tpl");
    assert(r@.subrange(0, r@.len() as int) =~= r@);
    if ends_with_exec(&r, r.len(), &suffix) {
        let mut src = trim_end_matches(src_dir, "/");
        src.append("/");
        src.append(rel);
        DirItem::Render { src, dst: trim_end_matches(dst.as_str(), ".tpl") }
    } else {
        DirItem::Copy { dst }
    }
}

/// Where `forge.render(src)` writes when no destination is given: the
/// source path without its `.tpl` suffix.
pub fn default_destination(src: &str) -> (dst: String)
    ensures
        dst@ == trim_end_all(src@, ".tpl"@),
{
    trim_end_matches(src, ".tpl")
}

/// A file found under a directory: its path and its path relative to the
/// directory.
#[derive(Debug, Clone)]
pub struct WalkEntry {
    pub path: String,
    pub rel: String,
}

impl crate::order::Keyed for WalkEntry {
    open spec fn key_of(&self) -> Seq<char> {
        self.rel@
    }

    fn key(&self) -> (k: &str) {
        self.rel.as_str()
    }
}

/// The files of a directory in the order they are rendered: by relative
/// path.
pub fn walk_order(entries: Vec<WalkEntry>) -> (out: Vec<WalkEntry>)
    ensures
        out@ == crate::order::sort_spec(entries@),
        crate::order::sorted_by_key(out@),
{
    crate::order::sort_by_key(entries)
}

/// The error of a directory to render that does not exist.
pub fn missing_source_dir(src_dir: &str) -> (e: String)
    ensures
        e@ == "source directory not found: "@ + src_dir@,
{
    let mut m = "source directory not found: ".to_owned();
    m.append(src_dir);
    m
}

} // verus!
