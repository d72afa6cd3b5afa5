use vstd::prelude::*;
use vstd::string::StringExecFns;
use crate::text::is_space;
use crate::text::views_of;
use crate::text::words_of;
use crate::text::split_words;
use crate::text::lemma_words_wf;
use crate::text::lemma_words_append_space;
use crate::text::lemma_words_append_word;
use crate::ngram::join_with;

verus! {

/// Whether a character has the Unicode `Letter` or `Number` property.
pub uninterp spec fn letter_or_number(c: char) -> bool;

/// Whether the cleanup keeps a character: letters, numbers and whitespace.
pub open spec fn kept_char(c: char) -> bool {
    letter_or_number(c) || is_space(c)
}

/// `s` with every character outside the kept classes removed: the
/// stripping acts character by character, keeping order.
pub open spec fn sym_stripped(s: Seq<char>) -> Seq<char>
    decreases s.len(),
{
    if s.len() == 0 {
        Seq::empty()
    } else if kept_char(s.last()) {
        sym_stripped(s.drop_last()).push(s.last())
    } else {
        sym_stripped(s.drop_last())
    }
}

/// Relies on regex::Regex::new and Regex::replace_all with the fixed
/// pattern `[^\p{L}\p{N}\s]+`: every run of characters outside the letter,
/// number and whitespace classes is replaced by nothing, which removes
/// exactly the characters outside those classes. `\p{L}` and `\p{N}` are
/// the classes behind `letter_or_number`, and `\s` is exactly Unicode
/// `White_Space`, the `is_space` of this crate. The pattern is a valid
/// constant, so compiling it cannot fail.
#[verifier::external_body]
fn strip_symbols(input: &str) -> (r: String)
    ensures
        r@ == sym_stripped(input@),
        forall|j: int|
            0 <= j < r@.len() && !is_space(r@[j]) ==> letter_or_number(#[trigger] r@[j]),
{
    let re = regex::Regex::new(r"[^\p{L}\p{N}\s]+").unwrap();
    re.replace_all(input, "").to_string()
}

/// What `clean_text` returns: the words of the symbol-stripped input,
/// joined with single spaces — leading and trailing whitespace gone, inner
/// whitespace runs collapsed.
pub open spec fn spec_clean_text(s: Seq<char>) -> Seq<char> {
    join_with(words_of(sym_stripped(s)), " "@)
}

/// Keeps only letters, numbers and whitespace, trims the ends, and
/// collapses every whitespace run to a single space.
pub fn clean_text(input_text: &str) -> (r: String)
    ensures
        r@ == spec_clean_text(input_text@),
{
    let stripped = strip_symbols(input_text);
    let ws = split_words(stripped.as_str());
    let ghost wv = views_of(ws@);
    let mut r = String::new();
    let mut k: usize = 0;
    while k < ws.len()
        invariant
            k <= ws@.len(),
            wv == views_of(ws@),
            r@ == join_with(wv.take(k as int), " "@),
        decreases ws@.len() - k,
    {
        if k > 0 {
            r.append(" ");
        }
        r.append(ws[k].as_str());
        proof {
            assert(wv[k as int] == ws@[k as int]@);
            assert(wv.take(k + 1).drop_last() =~= wv.take(k as int));
            assert(wv.take(k + 1).last() == wv[k as int]);
        }
        k = k + 1;
    }
    proof {
        assert(wv.take(ws@.len() as int) =~= wv);
    }
    r
}

proof fn lemma_stripped_chars_kept(s: Seq<char>)
    ensures
        forall|j: int| 0 <= j < sym_stripped(s).len() ==> kept_char(#[trigger] sym_stripped(s)[j]),
    decreases s.len(),
{
    if s.len() > 0 {
        lemma_stripped_chars_kept(s.drop_last());
        let prev = sym_stripped(s.drop_last());
        let cur = sym_stripped(s);
        if kept_char(s.last()) {
            assert forall|j: int| 0 <= j < cur.len() implies kept_char(#[trigger] cur[j]) by {
                if j < prev.len() {
                    assert(cur[j] == prev[j]);
                } else {
                    assert(cur[j] == s.last());
                }
            }
        }
    }
}

proof fn lemma_stripped_identity(s: Seq<char>)
    requires
        forall|j: int| 0 <= j < s.len() ==> kept_char(#[trigger] s[j]),
    ensures
        sym_stripped(s) == s,
    decreases s.len(),
{
    if s.len() > 0 {
        lemma_stripped_identity(s.drop_last());
        assert(kept_char(s[s.len() - 1]));
        assert(sym_stripped(s) =~= s);
    }
}

proof fn lemma_join_chars_kept(ws: Seq<Seq<char>>)
    requires
        forall|i: int, j: int|
            0 <= i < ws.len() && 0 <= j < ws[i].len() ==> kept_char(#[trigger] ws[i][j]),
    ensures
        forall|j: int|
            0 <= j < join_with(ws, " "@).len() ==> kept_char(
                #[trigger] join_with(ws, " "@)[j],
            ),
    decreases ws.len(),
{
    reveal_strlit(" ");
    if ws.len() == 1 {
        assert(join_with(ws, " "@) == ws.last());
        assert(forall|j: int|
            0 <= j < ws.last().len() ==> kept_char(#[trigger] ws.last()[j]));
    } else if ws.len() > 1 {
        let prev = ws.drop_last();
        assert(forall|i: int, j: int|
            0 <= i < prev.len() && 0 <= j < prev[i].len() ==> kept_char(#[trigger] prev[i][j]));
        lemma_join_chars_kept(prev);
        let pj = join_with(prev, " "@);
        let cur = join_with(ws, " "@);
        assert(cur == pj + " "@ + ws.last());
        assert(is_space(' '));
        assert forall|j: int| 0 <= j < cur.len() implies kept_char(#[trigger] cur[j]) by {
            if j < pj.len() {
                assert(cur[j] == pj[j]);
            } else if j == pj.len() {
                assert(cur[j] == ' ');
            } else {
                assert(cur[j] == ws.last()[j - pj.len() - 1]);
                assert(kept_char(ws[ws.len() - 1][j - pj.len() - 1]));
            }
        }
    }
}

proof fn lemma_join_words_roundtrip(ws: Seq<Seq<char>>)
    requires
        forall|i: int| 0 <= i < ws.len() ==> (#[trigger] ws[i]).len() > 0,
        forall|i: int, j: int|
            0 <= i < ws.len() && 0 <= j < ws[i].len() ==> !is_space(#[trigger] ws[i][j]),
    ensures
        words_of(join_with(ws, " "@)) == ws,
    decreases ws.len(),
{
    reveal_strlit(" ");
    if ws.len() == 0 {
        assert(words_of(join_with(ws, " "@)) =~= ws);
    } else if ws.len() == 1 {
        let w = ws.last();
        assert(join_with(ws, " "@) == w);
        lemma_words_append_word(Seq::empty(), w);
        assert(Seq::<char>::empty() + w =~= w);
        assert(words_of(Seq::<char>::empty()).push(w) =~= ws);
    } else {
        let prev = ws.drop_last();
        let w = ws.last();
        assert(forall|i: int| 0 <= i < prev.len() ==> (#[trigger] prev[i]).len() > 0);
        assert(forall|i: int, j: int|
            0 <= i < prev.len() && 0 <= j < prev[i].len() ==> !is_space(#[trigger] prev[i][j]));
        lemma_join_words_roundtrip(prev);
        let pj = join_with(prev, " "@);
        let cur = join_with(ws, " "@);
        assert(cur == pj + " "@ + w);
        let s1 = pj + " "@;
        assert(s1 =~= pj.push(' '));
        assert(is_space(' '));
        lemma_words_append_space(pj, ' ');
        assert(words_of(s1) == prev);
        assert(s1.last() == ' ');
        assert(forall|j: int| 0 <= j < w.len() ==> !is_space(#[trigger] w[j]));
        lemma_words_append_word(s1, w);
        assert(cur =~= s1 + w);
        assert(prev.push(w) =~= ws);
    }
}

/// Cleanup is idempotent: the output of `clean_text` is already in
/// normalized form — all characters kept, single spaces between non-empty
/// words, none at the ends — so cleaning it again returns it unchanged.
pub proof fn lemma_clean_text_idempotent(s: Seq<char>)
    ensures
        spec_clean_text(spec_clean_text(s)) == spec_clean_text(s),
{
    let t = sym_stripped(s);
    lemma_stripped_chars_kept(s);
    let ws = words_of(t);
    lemma_words_wf(t, |c: char| kept_char(c));
    let c1 = join_with(ws, " "@);
    assert(forall|i: int, j: int|
        0 <= i < ws.len() && 0 <= j < ws[i].len() ==> kept_char(#[trigger] ws[i][j]));
    lemma_join_chars_kept(ws);
    lemma_stripped_identity(c1);
    lemma_join_words_roundtrip(ws);
}

} // verus!
