//! Case conversion for template strings (`forge.str.snake`, `kebab`,
//! `pascal`, `camel`). Input may be camelCase, PascalCase, snake_case,
//! kebab-case or words separated by white space.
use crate::text::{char_is_whitespace, chars_of, is_ws, push_char, views};
use vstd::prelude::*;

verus! {

pub open spec fn is_upper(c: char) -> bool {
    'A' <= c <= 'Z'
}

pub open spec fn is_lower_or_digit(c: char) -> bool {
    ('a' <= c <= 'z') || ('0' <= c <= '9')
}

/// ASCII lower case of one character.
pub open spec fn lower(c: char) -> char {
    if is_upper(c) {
        ((c as u32) + 32) as char
    } else {
        c
    }
}

/// ASCII upper case of one character.
pub open spec fn upper(c: char) -> char {
    if 'a' <= c <= 'z' {
        ((c as u32) - 32) as char
    } else {
        c
    }
}

/// A character that separates words: `-`, `_` or white space.
pub open spec fn is_sep(c: char) -> bool {
    c == '-' || c == '_' || is_ws(c)
}

/// Words found so far, the word being read, and whether its last character
/// was a lower-case letter or a digit (so that an upper-case letter next
/// starts a new word).
pub struct WordState {
    pub done: Seq<Seq<char>>,
    pub cur: Seq<char>,
    pub after_lower: bool,
}

pub open spec fn word_step(st: WordState, c: char) -> WordState {
    if is_sep(c) {
        WordState {
            done: if st.cur.len() > 0 { st.done.push(st.cur) } else { st.done },
            cur: Seq::empty(),
            after_lower: false,
        }
    } else if is_upper(c) && st.after_lower {
        WordState { done: st.done.push(st.cur), cur: seq![lower(c)], after_lower: false }
    } else {
        WordState { done: st.done, cur: st.cur.push(lower(c)), after_lower: is_lower_or_digit(c) }
    }
}

pub open spec fn word_fold(s: Seq<char>) -> WordState
    decreases s.len(),
{
    if s.len() == 0 {
        WordState { done: Seq::empty(), cur: Seq::empty(), after_lower: false }
    } else {
        word_step(word_fold(s.drop_last()), s.last())
    }
}

/// The words of `s`, in ASCII lower case: cut at separators and before an
/// upper-case letter that follows a lower-case letter or a digit.
pub open spec fn words_spec(s: Seq<char>) -> Seq<Seq<char>> {
    let st = word_fold(s);
    if st.cur.len() > 0 {
        st.done.push(st.cur)
    } else {
        st.done
    }
}

/// Words joined with a separator between them.
pub open spec fn join_spec(ws: Seq<Seq<char>>, sep: Seq<char>) -> Seq<char>
    decreases ws.len(),
{
    if ws.len() == 0 {
        Seq::empty()
    } else if ws.len() == 1 {
        ws[0]
    } else {
        join_spec(ws.drop_last(), sep) + sep + ws.last()
    }
}

/// A word with its first character in upper case.
pub open spec fn capitalize(w: Seq<char>) -> Seq<char> {
    if w.len() == 0 {
        w
    } else {
        w.update(0, upper(w[0]))
    }
}

pub open spec fn pascal_spec(ws: Seq<Seq<char>>) -> Seq<char>
    decreases ws.len(),
{
    if ws.len() == 0 {
        Seq::empty()
    } else {
        pascal_spec(ws.drop_last()) + capitalize(ws.last())
    }
}

pub open spec fn snake_spec(s: Seq<char>) -> Seq<char> {
    join_spec(words_spec(s), seq!['_'])
}

pub open spec fn kebab_spec(s: Seq<char>) -> Seq<char> {
    join_spec(words_spec(s), seq!['-'])
}

pub open spec fn camel_spec(s: Seq<char>) -> Seq<char> {
    let p = pascal_spec(words_spec(s));
    if p.len() == 0 {
        p
    } else {
        p.update(0, lower(p[0]))
    }
}

fn lower_char(c: char) -> (r: char)
    ensures
        r == lower(c),
{
    if 'A' <= c && c <= 'Z' {
        let b = c as u8;
        ((b + 32) as char)
    } else {
        c
    }
}

fn upper_char(c: char) -> (r: char)
    ensures
        r == upper(c),
{
    if 'a' <= c && c <= 'z' {
        let b = c as u8;
        ((b - 32) as char)
    } else {
        c
    }
}

fn sep_char(c: char) -> (b: bool)
    ensures
        b == is_sep(c),
{
    c == '-' || c == '_' || char_is_whitespace(c)
}

/// Splits `input` into lower-case words.
pub fn words(input: &str) -> (out: Vec<Vec<char>>)
    ensures
        out@.map_values(|w: Vec<char>| w@) == words_spec(input@),
{
    let v = chars_of(input);
    let mut done: Vec<Vec<char>> = Vec::new();
    let mut cur: Vec<char> = Vec::new();
    let mut after_lower = false;
    let mut i: usize = 0;
    assert(v@.take(0) =~= Seq::<char>::empty());
    assert(done@.map_values(|w: Vec<char>| w@) =~= Seq::<Seq<char>>::empty());
    assert(cur@ =~= Seq::<char>::empty());
    while i < v.len()
        invariant
            v@ == input@,
            i <= v.len(),
            word_fold(v@.take(i as int)) == (WordState {
                done: done@.map_values(|w: Vec<char>| w@),
                cur: cur@,
                after_lower,
            }),
        decreases v.len() - i,
    {
        assert(v@.take(i + 1).drop_last() =~= v@.take(i as int));
        let ghost before = done@.map_values(|w: Vec<char>| w@);
        let c = v[i];
        if sep_char(c) {
            if cur.len() > 0 {
                done.push(cur);
                assert(done@.map_values(|w: Vec<char>| w@) =~= before.push(
                    word_fold(v@.take(i as int)).cur,
                ));
            }
            cur = Vec::new();
            after_lower = false;
        } else if 'A' <= c && c <= 'Z' && after_lower {
            done.push(cur);
            assert(done@.map_values(|w: Vec<char>| w@) =~= before.push(
                word_fold(v@.take(i as int)).cur,
            ));
            cur = Vec::new();
            cur.push(lower_char(c));
            after_lower = false;
            assert(cur@ =~= seq![lower(c)]);
        } else {
            cur.push(lower_char(c));
            after_lower = ('a' <= c && c <= 'z') || ('0' <= c && c <= '9');
        }
        i = i + 1;
    }
    assert(v@.take(v@.len() as int) =~= v@);
    if cur.len() > 0 {
        let ghost before = done@.map_values(|w: Vec<char>| w@);
        done.push(cur);
        assert(done@.map_values(|w: Vec<char>| w@) =~= before.push(word_fold(input@).cur));
    }
    done
}

fn join_words(ws: &Vec<Vec<char>>, sep: char) -> (out: String)
    ensures
        out@ == join_spec(ws@.map_values(|w: Vec<char>| w@), seq![sep]),
{
    let ghost wv = ws@.map_values(|w: Vec<char>| w@);
    let mut out = String::new();
    let mut i: usize = 0;
    while i < ws.len()
        invariant
            i <= ws.len(),
            wv == ws@.map_values(|w: Vec<char>| w@),
            out@ == join_spec(wv.take(i as int), seq![sep]),
        decreases ws.len() - i,
    {
        assert(wv.take(i + 1).drop_last() =~= wv.take(i as int));
        assert(wv.take(i + 1).last() == ws@[i as int]@);
        if i > 0 {
            push_char(&mut out, sep);
        }
        let w = &ws[i];
        let ghost mid = out@;
        let mut j: usize = 0;
        while j < w.len()
            invariant
                j <= w.len(),
                out@ == mid + w@.take(j as int),
            decreases w.len() - j,
        {
            push_char(&mut out, w[j]);
            j = j + 1;
            assert(out@ =~= mid + w@.take(j as int));
        }
        assert(w@.take(w@.len() as int) =~= w@);
        proof {
            if i == 0 {
                assert(wv.take(1).len() == 1);
                assert(out@ =~= join_spec(wv.take(1), seq![sep]));
            } else {
                assert(out@ =~= join_spec(wv.take(i as int), seq![sep]) + seq![sep] + w@);
            }
        }
        i = i + 1;
    }
    assert(wv.take(ws@.len() as int) =~= wv);
    out
}

/// `forge.str.snake`: lower-case words joined with `_`.
pub fn to_snake(input: &str) -> (out: String)
    ensures
        out@ == snake_spec(input@),
{
    join_words(&words(input), '_')
}

/// `forge.str.kebab`: lower-case words joined with `-`.
pub fn to_kebab(input: &str) -> (out: String)
    ensures
        out@ == kebab_spec(input@),
{
    join_words(&words(input), '-')
}

fn pascal_of(ws: &Vec<Vec<char>>) -> (out: String)
    ensures
        out@ == pascal_spec(ws@.map_values(|w: Vec<char>| w@)),
{
    let ghost wv = ws@.map_values(|w: Vec<char>| w@);
    let mut out = String::new();
    let mut i: usize = 0;
    while i < ws.len()
        invariant
            i <= ws.len(),
            wv == ws@.map_values(|w: Vec<char>| w@),
            out@ == pascal_spec(wv.take(i as int)),
        decreases ws.len() - i,
    {
        assert(wv.take(i + 1).drop_last() =~= wv.take(i as int));
        assert(wv.take(i + 1).last() == ws@[i as int]@);
        let w = &ws[i];
        let ghost mid = out@;
        let mut j: usize = 0;
        while j < w.len()
            invariant
                j <= w.len(),
                out@ == mid + capitalize(w@).take(j as int),
            decreases w.len() - j,
        {
            let c = if j == 0 { upper_char(w[j]) } else { w[j] };
            push_char(&mut out, c);
            j = j + 1;
            assert(out@ =~= mid + capitalize(w@).take(j as int));
        }
        assert(capitalize(w@).take(w@.len() as int) =~= capitalize(w@));
        i = i + 1;
    }
    assert(wv.take(ws@.len() as int) =~= wv);
    out
}

/// `forge.str.pascal`: each word with its first letter in upper case.
pub fn to_pascal(input: &str) -> (out: String)
    ensures
        out@ == pascal_spec(words_spec(input@)),
{
    pascal_of(&words(input))
}

/// `forge.str.camel`: as `to_pascal`, the first letter in lower case.
pub fn to_camel(input: &str) -> (out: String)
    ensures
        out@ == camel_spec(input@),
{
    let p = to_pascal(input);
    let v = chars_of(p.as_str());
    if v.len() == 0 {
        return p;
    }
    let mut out = String::new();
    push_char(&mut out, lower_char(v[0]));
    assert(out@ =~= p@.update(0, lower(p@[0])).take(1));
    let mut j: usize = 1;
    while j < v.len()
        invariant
            1 <= j <= v.len(),
            v@ == p@,
            out@ == p@.update(0, lower(p@[0])).take(j as int),
        decreases v.len() - j,
    {
        push_char(&mut out, v[j]);
        j = j + 1;
        assert(out@ =~= p@.update(0, lower(p@[0])).take(j as int));
    }
    assert(p@.update(0, lower(p@[0])).take(v@.len() as int) =~= p@.update(0, lower(p@[0])));
    out
}


/// A word as `words_spec` gives it: not empty, no separator, no ASCII
/// upper-case letter.
pub open spec fn clean_word(w: Seq<char>) -> bool {
    w.len() > 0 && forall|i: int| 0 <= i < w.len() ==> !is_sep(#[trigger] w[i]) && !is_upper(w[i])
}

pub open spec fn clean_chars(w: Seq<char>) -> bool {
    forall|i: int| 0 <= i < w.len() ==> !is_sep(#[trigger] w[i]) && !is_upper(w[i])
}

proof fn lemma_fold_clean(s: Seq<char>)
    ensures
        forall|i: int| 0 <= i < word_fold(s).done.len() ==> clean_word(#[trigger] word_fold(s).done[i]),
        clean_chars(word_fold(s).cur),
        word_fold(s).after_lower ==> word_fold(s).cur.len() > 0,
    decreases s.len(),
{
    if s.len() > 0 {
        lemma_fold_clean(s.drop_last());
        let st = word_fold(s.drop_last());
        let c = s.last();
        assert(!is_upper(lower(c)));
        assert(is_sep(c) || !is_sep(lower(c)));
        let nx = word_fold(s);
        assert(nx == word_step(st, c));
        if !is_sep(c) && !(is_upper(c) && st.after_lower) {
            assert forall|i: int| 0 <= i < nx.cur.len() implies !is_sep(#[trigger] nx.cur[i])
                && !is_upper(nx.cur[i]) by {
                if i < st.cur.len() {
                    assert(nx.cur[i] == st.cur[i]);
                }
            }
        }
        if is_sep(c) && st.cur.len() > 0 {
            assert forall|i: int| 0 <= i < nx.done.len() implies clean_word(#[trigger] nx.done[i]) by {
                if i < st.done.len() {
                    assert(nx.done[i] == st.done[i]);
                }
            }
        }
        if !is_sep(c) && is_upper(c) && st.after_lower {
            assert forall|i: int| 0 <= i < nx.done.len() implies clean_word(#[trigger] nx.done[i]) by {
                if i < st.done.len() {
                    assert(nx.done[i] == st.done[i]);
                }
            }
        }
    }
}

/// The words of any text are clean.
pub proof fn lemma_words_clean(s: Seq<char>)
    ensures
        forall|i: int| 0 <= i < words_spec(s).len() ==> clean_word(#[trigger] words_spec(s)[i]),
{
    lemma_fold_clean(s);
    let st = word_fold(s);
    if st.cur.len() > 0 {
        assert forall|i: int| 0 <= i < words_spec(s).len() implies clean_word(
            #[trigger] words_spec(s)[i],
        ) by {
            if i < st.done.len() {
                assert(words_spec(s)[i] == st.done[i]);
            }
        }
    }
}

/// Reading clean characters after `p` adds them to the current word.
proof fn lemma_fold_extend(p: Seq<char>, w: Seq<char>)
    requires
        clean_chars(w),
    ensures
        word_fold(p + w).done == word_fold(p).done,
        word_fold(p + w).cur == word_fold(p).cur + w,
    decreases w.len(),
{
    if w.len() == 0 {
        assert(p + w =~= p);
        assert(word_fold(p).cur + w =~= word_fold(p).cur);
    } else {
        let w0 = w.drop_last();
        assert forall|i: int| 0 <= i < w0.len() implies !is_sep(#[trigger] w0[i]) && !is_upper(w0[i]) by {
            assert(w0[i] == w[i]);
        }
        lemma_fold_extend(p, w0);
        assert((p + w).drop_last() =~= p + w0);
        assert((p + w).last() == w[w.len() - 1]);
        let c = w[w.len() - 1];
        assert(!is_sep(c) && !is_upper(c));
        assert(lower(c) == c);
        assert((word_fold(p).cur + w0).push(c) =~= word_fold(p).cur + w);
    }
}

/// The words of clean words joined by a separator are those words.
pub proof fn lemma_words_of_join(ws: Seq<Seq<char>>, sep: char)
    requires
        is_sep(sep),
        forall|i: int| 0 <= i < ws.len() ==> clean_word(#[trigger] ws[i]),
    ensures
        words_spec(join_spec(ws, seq![sep])) == ws,
        ws.len() > 0 ==> word_fold(join_spec(ws, seq![sep])).done == ws.drop_last()
            && word_fold(join_spec(ws, seq![sep])).cur == ws.last(),
    decreases ws.len(),
{
    if ws.len() == 0 {
        assert(words_spec(Seq::<char>::empty()) =~= ws);
    } else if ws.len() == 1 {
        assert(clean_word(ws[0]));
        lemma_fold_extend(Seq::<char>::empty(), ws[0]);
        assert(Seq::<char>::empty() + ws[0] =~= ws[0]);
        assert(Seq::<char>::empty() + ws[0] =~= ws[0]);
        assert(ws.drop_last() =~= Seq::<Seq<char>>::empty());
        assert(words_spec(ws[0]) =~= ws);
    } else {
        let front = ws.drop_last();
        assert forall|i: int| 0 <= i < front.len() implies clean_word(#[trigger] front[i]) by {
            assert(front[i] == ws[i]);
        }
        lemma_words_of_join(front, sep);
        let j = join_spec(front, seq![sep]);
        let a = j + seq![sep];
        assert(a.drop_last() =~= j);
        assert(a.last() == sep);
        let st = word_fold(j);
        assert(st.cur == front.last());
        assert(clean_word(front.last()));
        let last = ws.last();
        assert(clean_word(ws[ws.len() - 1]));
        lemma_fold_extend(a, last);
        assert(join_spec(ws, seq![sep]) == a + last);
        assert(word_fold(a).done == front.drop_last().push(front.last()));
        assert(front.drop_last().push(front.last()) =~= front);
        assert(word_fold(a).cur =~= Seq::<char>::empty());
        assert(Seq::<char>::empty() + last =~= last);
        assert(words_spec(a + last) =~= front.push(last));
        assert(front.push(last) =~= ws);
    }
}

/// Case conversions accept each other's output: converting a snake_case or
/// kebab-case result again gives the same words, so snake and kebab case
/// turn into each other, and each conversion is idempotent.
pub proof fn law_case_round_trip(s: Seq<char>)
    ensures
        words_spec(snake_spec(s)) == words_spec(s),
        words_spec(kebab_spec(s)) == words_spec(s),
        kebab_spec(snake_spec(s)) == kebab_spec(s),
        snake_spec(kebab_spec(s)) == snake_spec(s),
        snake_spec(snake_spec(s)) == snake_spec(s),
        kebab_spec(kebab_spec(s)) == kebab_spec(s),
        pascal_spec(words_spec(snake_spec(s))) == pascal_spec(words_spec(s)),
{
    lemma_words_clean(s);
    assert(is_sep('_'));
    assert(is_sep('-'));
    lemma_words_of_join(words_spec(s), '_');
    lemma_words_of_join(words_spec(s), '-');
}


/// A capitalized word is the word with its first character in ASCII upper
/// case and the rest unchanged.
pub proof fn law_capitalize(w: Seq<char>)
    ensures
        capitalize(w).len() == w.len(),
        w.len() > 0 ==> capitalize(w)[0] == upper(w[0]),
        forall|i: int| 1 <= i < w.len() ==> #[trigger] capitalize(w)[i] == w[i],
{
}

/// Pascal case capitalizes every word and joins them: the Pascal case of
/// two word lists one after the other is the Pascal case of the first
/// followed by that of the second, and that of one word is the word
/// capitalized.
pub proof fn law_pascal_capitalizes_every_word(ws1: Seq<Seq<char>>, ws2: Seq<Seq<char>>, w: Seq<char>)
    ensures
        pascal_spec(ws1 + ws2) == pascal_spec(ws1) + pascal_spec(ws2),
        pascal_spec(seq![w]) == capitalize(w),
    decreases ws2.len(),
{
    assert(seq![w].drop_last() =~= Seq::<Seq<char>>::empty());
    assert(pascal_spec(Seq::<Seq<char>>::empty()) + capitalize(w) =~= capitalize(w));
    if ws2.len() == 0 {
        assert(ws1 + ws2 =~= ws1);
        assert(pascal_spec(ws1) + pascal_spec(ws2) =~= pascal_spec(ws1));
    } else {
        law_pascal_capitalizes_every_word(ws1, ws2.drop_last(), w);
        assert((ws1 + ws2).drop_last() =~= ws1 + ws2.drop_last());
        assert((ws1 + ws2).last() == ws2.last());
        assert(pascal_spec(ws1) + pascal_spec(ws2.drop_last()) + capitalize(ws2.last())
            =~= pascal_spec(ws1) + (pascal_spec(ws2.drop_last()) + capitalize(ws2.last())));
    }
}

/// Camel case is Pascal case with its first character in ASCII lower case.
pub proof fn law_camel_is_pascal_lowered(s: Seq<char>)
    ensures
        camel_spec(s).len() == pascal_spec(words_spec(s)).len(),
        camel_spec(s).len() > 0 ==> camel_spec(s)[0] == lower(pascal_spec(words_spec(s))[0]),
        forall|i: int| 1 <= i < camel_spec(s).len() ==> #[trigger] camel_spec(s)[i] == pascal_spec(
            words_spec(s),
        )[i],
{
}

} // verus!
