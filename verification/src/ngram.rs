use vstd::prelude::*;
use vstd::string::StringExecFns;
use crate::text::views_of;
use crate::text::words_of;
use crate::text::split_words;
use crate::counter::spec_word_count;
use crate::counter::lemma_word_count_prefix;

verus! {

/// The parts joined with the separator between consecutive parts.
pub open spec fn join_with(parts: Seq<Seq<char>>, sep: Seq<char>) -> Seq<char>
    decreases parts.len(),
{
    if parts.len() == 0 {
        Seq::empty()
    } else if parts.len() == 1 {
        parts.last()
    } else {
        join_with(parts.drop_last(), sep) + sep + parts.last()
    }
}

/// The n-grams of one line's words: every window of `n` consecutive words,
/// each joined with single spaces.
pub open spec fn ngrams_of(ws: Seq<Seq<char>>, n: int) -> Seq<Seq<char>> {
    Seq::new((ws.len() - n + 1) as nat, |i: int| join_with(ws.subrange(i, i + n), " "@))
}

/// The n-grams of the lines from position `k` on: `None` when some line
/// holds fewer than `n` words — the scan stops at the first such line.
pub open spec fn collect_ngrams(lines: Seq<Seq<char>>, n: int, k: int) -> Option<Seq<Seq<char>>>
    decreases lines.len() - k,
{
    if k < 0 || k >= lines.len() {
        Some(Seq::empty())
    } else if words_of(lines[k]).len() < n {
        None
    } else {
        match collect_ngrams(lines, n, k + 1) {
            Option::None => Option::None,
            Option::Some(rest) => Option::Some(ngrams_of(words_of(lines[k]), n) + rest),
        }
    }
}

/// `o` with `a` prepended to its contents, when it has any.
pub open spec fn opt_prepend(a: Seq<Seq<char>>, o: Option<Seq<Seq<char>>>) -> Option<
    Seq<Seq<char>>,
> {
    match o {
        Option::None => Option::None,
        Option::Some(rest) => Option::Some(a + rest),
    }
}

/// What `generate_ngrams` returns: the n-grams of all lines joined with
/// newlines, or the fixed message when a line is too short to form one.
pub open spec fn spec_generate_ngrams(lines: Seq<Seq<char>>, n: int) -> Seq<char> {
    match collect_ngrams(lines, n, 0) {
        Option::None => "length of sentences are not enough to form an n-gram."@,
        Option::Some(gs) => join_with(gs, "\n"@),
    }
}

/// Forms the `n`-grams of every line and joins them with newlines; a line
/// with fewer than `n` words stops the scan and yields the fixed message
/// instead. An order of zero yields one empty window per word plus one, so
/// only that case needs the windows to be countable in a `usize`.
pub fn generate_ngrams(lines: Vec<String>, n: usize) -> (r: String)
    requires
        n == 0 ==> spec_word_count(views_of(lines@)) + lines@.len() <= usize::MAX,
    ensures
        r@ == spec_generate_ngrams(views_of(lines@), n as int),
{
    let ghost ls = views_of(lines@);
    let mut ngram_vec: Vec<String> = Vec::new();
    proof {
        assert(views_of(ngram_vec@) =~= Seq::<Seq<char>>::empty());
    }
    let mut li: usize = 0;
    while li < lines.len()
        invariant
            li <= lines.len(),
            ls == views_of(lines@),
            n == 0 ==> spec_word_count(ls) + lines@.len() <= usize::MAX,
            collect_ngrams(ls, n as int, 0) == opt_prepend(
                views_of(ngram_vec@),
                collect_ngrams(ls, n as int, li as int),
            ),
        decreases lines.len() - li,
    {
        let line: &String = &lines[li];
        proof {
            assert(ls[li as int] == lines@[li as int]@);
        }
        let ws = split_words(line.as_str());
        let ghost wv = views_of(ws@);
        if ws.len() < n {
            return String::from_str("length of sentences are not enough to form an n-gram.");
        }
        let ghost acc0 = views_of(ngram_vec@);
        proof {
            if n == 0 {
                assert(ls.take(li + 1).drop_last() =~= ls.take(li as int));
                assert(ls.take(li + 1).last() == ls[li as int]);
                lemma_word_count_prefix(ls, li as int);
                lemma_word_count_prefix(ls, li + 1);
                assert(wv.len() <= spec_word_count(ls));
            }
        }
        let count: usize = ws.len() - n + 1;
        let ghost ng = ngrams_of(wv, n as int);
        let mut i: usize = 0;
        while i < count
            invariant
                i <= count,
                count == ws@.len() - n + 1,
                ws@.len() <= usize::MAX,
                n <= ws@.len(),
                wv == views_of(ws@),
                ng == ngrams_of(wv, n as int),
                acc0 + ng.take(i as int) =~= views_of(ngram_vec@),
            decreases count - i,
        {
            let mut g = String::new();
            let mut k: usize = i;
            while k < i + n
                invariant
                    i <= k <= i + n,
                    i + n <= ws@.len(),
                    ws@.len() <= usize::MAX,
                    wv == views_of(ws@),
                    g@ == join_with(wv.subrange(i as int, k as int), " "@),
                decreases i + n - k,
            {
                if k > i {
                    g.append(" ");
                }
                g.append(ws[k].as_str());
                proof {
                    assert(wv[k as int] == ws@[k as int]@);
                    assert(wv.subrange(i as int, k + 1).drop_last() =~= wv.subrange(
                        i as int,
                        k as int,
                    ));
                    assert(wv.subrange(i as int, k + 1).last() == wv[k as int]);
                }
                k = k + 1;
            }
            let ghost gview = g@;
            ngram_vec.push(g);
            proof {
                assert(gview == ng[i as int]);
                assert(views_of(ngram_vec@) =~= (acc0 + ng.take(i as int)).push(gview));
                assert(acc0 + ng.take(i + 1) =~= (acc0 + ng.take(i as int)).push(gview));
            }
            i = i + 1;
        }
        proof {
            assert(ng.take(count as int) =~= ng);
            assert(collect_ngrams(ls, n as int, li as int) == opt_prepend(
                ng,
                collect_ngrams(ls, n as int, li + 1),
            ));
            if collect_ngrams(ls, n as int, li + 1) is Some {
                let rest = collect_ngrams(ls, n as int, li + 1)->Some_0;
                assert((acc0 + ng) + rest =~= acc0 + (ng + rest));
            }
        }
        li = li + 1;
    }
    let gv: Ghost<Seq<Seq<char>>> = Ghost(views_of(ngram_vec@));
    proof {
        assert(collect_ngrams(ls, n as int, lines@.len() as int) == Option::Some(
            Seq::<Seq<char>>::empty(),
        ));
        assert(gv@ + Seq::<Seq<char>>::empty() =~= gv@);
    }
    let mut r = String::new();
    let mut k: usize = 0;
    while k < ngram_vec.len()
        invariant
            k <= ngram_vec@.len(),
            gv@ == views_of(ngram_vec@),
            r@ == join_with(gv@.take(k as int), "\n"@),
        decreases ngram_vec@.len() - k,
    {
        if k > 0 {
            r.append("\n");
        }
        r.append(ngram_vec[k].as_str());
        proof {
            assert(gv@[k as int] == ngram_vec@[k as int]@);
            assert(gv@.take(k + 1).drop_last() =~= gv@.take(k as int));
            assert(gv@.take(k + 1).last() == gv@[k as int]);
        }
        k = k + 1;
    }
    proof {
        assert(gv@.take(ngram_vec@.len() as int) =~= gv@);
    }
    r
}

} // verus!
