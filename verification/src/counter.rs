use vstd::prelude::*;
use crate::text::views_of;
use crate::text::words_of;
use crate::text::split_words;

verus! {

/// Per-document lexical counts: total words, non-empty lines, and distinct
/// words.
#[derive(Debug)]
pub struct Counts {
    pub word_count: usize,
    pub line_count: usize,
    pub unique_word_count: usize,
}

/// The number of non-empty lines.
pub open spec fn spec_line_count(lines: Seq<Seq<char>>) -> int
    decreases lines.len(),
{
    if lines.len() == 0 {
        0
    } else {
        spec_line_count(lines.drop_last()) + if lines.last().len() > 0 {
            1int
        } else {
            0int
        }
    }
}

/// The number of whitespace-delimited words over all lines.
pub open spec fn spec_word_count(lines: Seq<Seq<char>>) -> int
    decreases lines.len(),
{
    if lines.len() == 0 {
        0
    } else {
        spec_word_count(lines.drop_last()) + words_of(lines.last()).len()
    }
}

/// All words of all lines, concatenated in order.
pub open spec fn all_words(lines: Seq<Seq<char>>) -> Seq<Seq<char>>
    decreases lines.len(),
{
    if lines.len() == 0 {
        Seq::empty()
    } else {
        all_words(lines.drop_last()) + words_of(lines.last())
    }
}

pub proof fn lemma_word_count_prefix(lines: Seq<Seq<char>>, k: int)
    requires
        0 <= k <= lines.len(),
    ensures
        0 <= spec_word_count(lines.take(k)) <= spec_word_count(lines),
    decreases lines.len() - k, lines.len(),
{
    if k == lines.len() {
        assert(lines.take(k) =~= lines);
        lemma_word_count_nonneg(lines);
    } else {
        assert(lines.take(k + 1).drop_last() =~= lines.take(k));
        assert(lines.take(k + 1).last() == lines[k]);
        lemma_word_count_prefix(lines, k + 1);
        lemma_word_count_nonneg(lines.take(k));
    }
}

proof fn lemma_word_count_nonneg(lines: Seq<Seq<char>>)
    ensures
        spec_word_count(lines) >= 0,
    decreases lines.len(),
{
    if lines.len() > 0 {
        lemma_word_count_nonneg(lines.drop_last());
    }
}

/// Decides whether one of the strings of `v` has the characters of `w`.
fn contains_string(v: &Vec<String>, w: &String) -> (r: bool)
    ensures
        r == views_of(v@).contains(w@),
{
    let mut j: usize = 0;
    while j < v.len()
        invariant
            j <= v@.len(),
            forall|m: int| 0 <= m < j ==> views_of(v@)[m] != w@,
        decreases v@.len() - j,
    {
        if v[j].eq(w) {
            proof {
                assert(views_of(v@)[j as int] == w@);
            }
            return true;
        }
        j = j + 1;
    }
    false
}

/// Counts the words, the non-empty lines and the distinct words of a
/// document's lines. A line of only whitespace counts as a line but holds no
/// words; two occurrences of the same character sequence are one distinct
/// word.
pub fn counter(lines: Vec<String>) -> (r: Counts)
    requires
        spec_word_count(views_of(lines@)) <= usize::MAX,
    ensures
        r.word_count == spec_word_count(views_of(lines@)),
        r.line_count == spec_line_count(views_of(lines@)),
        r.unique_word_count == all_words(views_of(lines@)).to_set().len(),
{
    let ghost ls = views_of(lines@);
    let mut wc: usize = 0;
    let mut lc: usize = 0;
    let mut seen: Vec<String> = Vec::new();
    let ghost mut pw: Seq<Seq<char>> = Seq::empty();
    proof {
        assert(ls.take(0) =~= Seq::<Seq<char>>::empty());
        assert(pw =~= all_words(ls.take(0)));
    }
    let mut li: usize = 0;
    while li < lines.len()
        invariant
            li <= lines.len(),
            ls == views_of(lines@),
            spec_word_count(ls) <= usize::MAX,
            wc == spec_word_count(ls.take(li as int)),
            lc <= li,
            lc == spec_line_count(ls.take(li as int)),
            pw == all_words(ls.take(li as int)),
            views_of(seen@).no_duplicates(),
            forall|w: Seq<char>| #[trigger]
                views_of(seen@).contains(w) <==> pw.contains(w),
        decreases lines.len() - li,
    {
        let line: &String = &lines[li];
        proof {
            assert(ls[li as int] == lines@[li as int]@);
            assert(ls.take(li + 1).drop_last() =~= ls.take(li as int));
            assert(ls.take(li + 1).last() == ls[li as int]);
        }
        if !line.as_str().is_empty() {
            lc = lc + 1;
        }
        let ws = split_words(line.as_str());
        let ghost wviews = views_of(ws@);
        proof {
            lemma_word_count_prefix(ls, li as int);
            lemma_word_count_prefix(ls, li + 1);
            assert(spec_word_count(ls.take(li + 1)) == spec_word_count(ls.take(li as int))
                + wviews.len());
        }
        wc = wc + ws.len();
        let mut wi: usize = 0;
        while wi < ws.len()
            invariant
                wi <= ws@.len(),
                wviews == views_of(ws@),
                views_of(seen@).no_duplicates(),
                forall|w: Seq<char>| #[trigger]
                    views_of(seen@).contains(w) <==> pw.contains(w),
                pw == all_words(ls.take(li as int)) + wviews.take(wi as int),
                li < lines.len(),
                ls == views_of(lines@),
            decreases ws@.len() - wi,
        {
            let w: &String = &ws[wi];
            proof {
                assert(wviews[wi as int] == ws@[wi as int]@);
            }
            let ghost pw0 = pw;
            let ghost seen0 = views_of(seen@);
            if !contains_string(&seen, w) {
                seen.push(w.clone());
                proof {
                    assert(views_of(seen@) =~= seen0.push(w@));
                }
            }
            proof {
                pw = pw0.push(w@);
                assert(pw =~= all_words(ls.take(li as int)) + wviews.take(wi + 1));
                let sv = views_of(seen@);
                assert forall|x: Seq<char>| #[trigger] sv.contains(x) <==> pw.contains(x) by {
                    if sv.contains(x) {
                        let i = choose|i: int| 0 <= i < sv.len() && sv[i] == x;
                        if i < seen0.len() {
                            assert(seen0.contains(x));
                            assert(pw0.contains(x));
                            let m = choose|m: int| 0 <= m < pw0.len() && pw0[m] == x;
                            assert(pw[m] == x);
                        } else {
                            assert(x == w@);
                            assert(pw[pw0.len() as int] == w@);
                        }
                    }
                    if pw.contains(x) {
                        let m = choose|m: int| 0 <= m < pw.len() && pw[m] == x;
                        if m < pw0.len() {
                            assert(pw0.contains(x));
                            assert(seen0.contains(x));
                            let i = choose|i: int| 0 <= i < seen0.len() && seen0[i] == x;
                            assert(sv[i] == x);
                        } else {
                            assert(x == w@);
                            if seen0.contains(w@) {
                                let i = choose|i: int| 0 <= i < seen0.len() && seen0[i] == w@;
                                assert(sv[i] == w@);
                            } else {
                                assert(sv[seen0.len() as int] == w@);
                            }
                        }
                    }
                }
                if !seen0.contains(w@) {
                    assert(views_of(seen@).no_duplicates());
                }
            }
            wi = wi + 1;
        }
        proof {
            assert(wviews.take(ws@.len() as int) =~= wviews);
            assert(pw =~= all_words(ls.take(li + 1)));
        }
        li = li + 1;
    }
    proof {
        assert(ls.take(lines@.len() as int) =~= ls);
        let sv = views_of(seen@);
        sv.unique_seq_to_set();
        assert(sv.to_set() =~= all_words(ls).to_set());
    }
    Counts { word_count: wc, line_count: lc, unique_word_count: seen.len() }
}

} // verus!
