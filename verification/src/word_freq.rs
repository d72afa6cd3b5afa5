use vstd::prelude::*;
use vstd::string::StrSliceExecFns;
use std::collections::HashMap;
use crate::text::views_of;
use crate::text::split_words;
use crate::counter::all_words;
use crate::counter::spec_word_count;
use crate::counter::lemma_word_count_prefix;

verus! {

/// Whether a character has the Unicode `Alphabetic` property.
pub uninterp spec fn is_alpha(c: char) -> bool;

/// Relies on char::is_alphabetic: the property depends on the character
/// alone.
#[verifier::external_body]
fn is_alpha_char(c: char) -> (r: bool)
    ensures
        r == is_alpha(c),
{
    c.is_alphabetic()
}

/// The Unicode lowercase mapping of a character sequence.
pub uninterp spec fn lower_of(s: Seq<char>) -> Seq<char>;

/// Relies on str::to_lowercase: the result depends on the characters alone,
/// and an empty string stays empty.
#[verifier::external_body]
fn to_lower(s: &str) -> (r: String)
    ensures
        r@ == lower_of(s@),
        s@.len() == 0 ==> r@.len() == 0,
{
    s.to_lowercase()
}

/// `w` with its leading non-alphabetic characters removed.
pub open spec fn trim_front(w: Seq<char>) -> Seq<char>
    decreases w.len(),
{
    if w.len() == 0 || is_alpha(w[0]) {
        w
    } else {
        trim_front(w.drop_first())
    }
}

/// `w` with its trailing non-alphabetic characters removed.
pub open spec fn trim_back(w: Seq<char>) -> Seq<char>
    decreases w.len(),
{
    if w.len() == 0 || is_alpha(w.last()) {
        w
    } else {
        trim_back(w.drop_last())
    }
}

/// `w` with non-alphabetic characters removed from both ends.
pub open spec fn trim_nonalpha(w: Seq<char>) -> Seq<char> {
    trim_back(trim_front(w))
}

/// The key a word is tallied under: trimmed of non-alphabetic characters at
/// both ends, then lowercased.
pub open spec fn processed(w: Seq<char>) -> Seq<char> {
    lower_of(trim_nonalpha(w))
}

/// `m` with the tally of `k` one higher.
pub open spec fn bump(m: Map<Seq<char>, int>, k: Seq<char>) -> Map<Seq<char>, int> {
    if m.contains_key(k) {
        m.insert(k, m[k] + 1)
    } else {
        m.insert(k, 1)
    }
}

/// The frequency table of a word sequence: each word's key of `processed`
/// mapped to its number of occurrences.
pub open spec fn freq_of_words(ws: Seq<Seq<char>>) -> Map<Seq<char>, int>
    decreases ws.len(),
{
    if ws.len() == 0 {
        Map::empty()
    } else {
        bump(freq_of_words(ws.drop_last()), processed(ws.last()))
    }
}

/// The position of the first alphabetic character, or the length.
fn alpha_start(w: &str) -> (st: usize)
    ensures
        st <= w@.len(),
        trim_front(w@) == w@.skip(st as int),
        st < w@.len() ==> is_alpha(w@[st as int]),
{
    let n: usize = w.unicode_len();
    let mut st: usize = 0;
    proof {
        assert(w@.skip(0) =~= w@);
    }
    while st < n
        invariant
            st <= n,
            n == w@.len(),
            trim_front(w@) == trim_front(w@.skip(st as int)),
        decreases n - st,
    {
        let c: char = w.get_char(st);
        if is_alpha_char(c) {
            return st;
        }
        proof {
            assert(w@.skip(st as int).drop_first() =~= w@.skip(st + 1));
            assert(w@.skip(st as int)[0] == w@[st as int]);
        }
        st = st + 1;
    }
    proof {
        assert(w@.skip(st as int) =~= Seq::<char>::empty());
    }
    st
}

/// One past the last alphabetic character at or after `st`, or `st`.
fn alpha_end(w: &str, st: usize) -> (en: usize)
    requires
        st <= w@.len(),
    ensures
        st <= en <= w@.len(),
        trim_back(w@.subrange(st as int, w@.len() as int)) == w@.subrange(st as int, en as int),
{
    let n: usize = w.unicode_len();
    let mut en: usize = n;
    proof {
        assert(w@.subrange(st as int, n as int) =~= w@.subrange(st as int, en as int));
    }
    while en > st
        invariant
            st <= en <= n,
            n == w@.len(),
            trim_back(w@.subrange(st as int, n as int)) == trim_back(
                w@.subrange(st as int, en as int),
            ),
        decreases en,
    {
        let c: char = w.get_char(en - 1);
        if is_alpha_char(c) {
            proof {
                assert(w@.subrange(st as int, en as int).last() == w@[en - 1]);
            }
            return en;
        }
        proof {
            assert(w@.subrange(st as int, en as int).drop_last() =~= w@.subrange(st as int, en - 1));
            assert(w@.subrange(st as int, en as int).last() == w@[en - 1]);
        }
        en = en - 1;
    }
    proof {
        assert(w@.subrange(st as int, en as int) =~= Seq::<char>::empty());
    }
    en
}

/// Removes non-alphabetic characters from both ends of a word.
fn trim_word(w: &str) -> (r: String)
    ensures
        r@ == trim_nonalpha(w@),
{
    let st = alpha_start(w);
    let en = alpha_end(w, st);
    proof {
        assert(w@.skip(st as int) =~= w@.subrange(st as int, w@.len() as int));
    }
    w.substring_char(st, en).to_owned()
}

/// The position of the key equal to `lw`, when the keys hold one.
fn find_key(keys: &Vec<String>, lw: &String) -> (r: Option<usize>)
    ensures
        match r {
            Option::Some(i) => i < keys@.len() && keys@[i as int]@ == lw@,
            Option::None => forall|i: int| 0 <= i < keys@.len() ==> (#[trigger] keys@[i])@ != lw@,
        },
{
    let mut fi: usize = 0;
    while fi < keys.len()
        invariant
            fi <= keys@.len(),
            forall|i: int| 0 <= i < fi ==> (#[trigger] keys@[i])@ != lw@,
        decreases keys@.len() - fi,
    {
        if keys[fi].eq(lw) {
            return Option::Some(fi);
        }
        fi = fi + 1;
    }
    Option::None
}

/// Relies on HashMap::insert with String keys and std's default hasher:
/// afterwards the map holds `k` with value `v` and is otherwise unchanged.
#[verifier::external_body]
fn map_insert(m: &mut HashMap<String, usize>, k: String, v: usize)
    ensures
        final(m)@ == old(m)@.insert(k, v),
{
    m.insert(k, v);
}

/// Tallies how often each processed word occurs over all lines: words are
/// split on whitespace, trimmed of non-alphabetic characters at both ends,
/// lowercased, and counted under the resulting key.
pub fn word_frequency(lines: Vec<String>) -> (m: HashMap<String, usize>)
    requires
        spec_word_count(views_of(lines@)) <= usize::MAX,
    ensures
        forall|w: String| #[trigger]
            m@.contains_key(w) ==> freq_of_words(all_words(views_of(lines@))).contains_key(w@)
                && freq_of_words(all_words(views_of(lines@)))[w@] == m@[w],
        forall|ws: Seq<char>| #[trigger]
            freq_of_words(all_words(views_of(lines@))).contains_key(ws) ==> exists|w: String|
                #[trigger] m@.contains_key(w) && w@ == ws,
{
    let ghost ls = views_of(lines@);
    let mut keys: Vec<String> = Vec::new();
    let mut counts: Vec<usize> = Vec::new();
    let ghost mut pw: Seq<Seq<char>> = Seq::empty();
    proof {
        assert(ls.take(0) =~= Seq::<Seq<char>>::empty());
        assert(pw =~= all_words(ls.take(0)));
    }
    let mut li: usize = 0;
    while li < lines.len()
        invariant
            li <= lines.len(),
            ls == views_of(lines@),
            spec_word_count(ls) <= usize::MAX,
            pw == all_words(ls.take(li as int)),
            pw.len() == spec_word_count(ls.take(li as int)),
            keys@.len() == counts@.len(),
            forall|a: int, b: int|
                0 <= a < b < keys@.len() ==> (#[trigger] keys@[a])@ != (#[trigger] keys@[b])@,
            forall|i: int|
                0 <= i < keys@.len() ==> #[trigger] freq_of_words(pw).contains_key(keys@[i]@)
                    && freq_of_words(pw)[keys@[i]@] == counts@[i] as int,
            forall|wv: Seq<char>| #[trigger]
                freq_of_words(pw).contains_key(wv) ==> exists|i: int|
                    0 <= i < keys@.len() && (#[trigger] keys@[i])@ == wv,
            forall|i: int| 0 <= i < counts@.len() ==> #[trigger] counts@[i] <= pw.len(),
        decreases lines.len() - li,
    {
        let line: &String = &lines[li];
        proof {
            assert(ls[li as int] == lines@[li as int]@);
            assert(ls.take(li + 1).drop_last() =~= ls.take(li as int));
            assert(ls.take(li + 1).last() == ls[li as int]);
            lemma_word_count_prefix(ls, li + 1);
        }
        let ws = split_words(line.as_str());
        let ghost wv = views_of(ws@);
        let mut wi: usize = 0;
        while wi < ws.len()
            invariant
                wi <= ws@.len(),
                wv == views_of(ws@),
                ls == views_of(lines@),
                li < lines.len(),
                pw == all_words(ls.take(li as int)) + wv.take(wi as int),
                pw.len() == spec_word_count(ls.take(li as int)) + wi,
                spec_word_count(ls.take(li + 1)) == spec_word_count(ls.take(li as int))
                    + wv.len(),
                0 <= spec_word_count(ls.take(li as int)),
                spec_word_count(ls.take(li + 1)) <= spec_word_count(ls),
                spec_word_count(ls) <= usize::MAX,
                keys@.len() == counts@.len(),
                forall|a: int, b: int|
                    0 <= a < b < keys@.len() ==> (#[trigger] keys@[a])@ != (#[trigger] keys@[b])@,
                forall|i: int|
                    0 <= i < keys@.len() ==> #[trigger] freq_of_words(pw).contains_key(keys@[i]@)
                        && freq_of_words(pw)[keys@[i]@] == counts@[i] as int,
                forall|wvx: Seq<char>| #[trigger]
                    freq_of_words(pw).contains_key(wvx) ==> exists|i: int|
                        0 <= i < keys@.len() && (#[trigger] keys@[i])@ == wvx,
                forall|i: int| 0 <= i < counts@.len() ==> #[trigger] counts@[i] <= pw.len(),
            decreases ws@.len() - wi,
        {
            let w: &String = &ws[wi];
            proof {
                assert(wv[wi as int] == ws@[wi as int]@);
            }
            let t = trim_word(w.as_str());
            let lw = to_lower(t.as_str());
            let ghost key = processed(w@);
            let ghost f0 = freq_of_words(pw);
            let ghost pw1 = pw.push(w@);
            proof {
                assert(pw1.drop_last() =~= pw);
                assert(freq_of_words(pw1) == bump(f0, key));
            }
            let ghost ks0 = keys@;
            let ghost cs0 = counts@;
            let slot = find_key(&keys, &lw);
            match slot {
                Option::Some(fi) => {
                    let c: usize = counts[fi];
                    proof {
                        assert(f0.contains_key(key));
                        assert(f0[key] == c as int);
                        assert(c < usize::MAX);
                    }
                    counts[fi] = c + 1;
                    proof {
                        pw = pw1;
                        assert(pw =~= all_words(ls.take(li as int)) + wv.take(wi + 1));
                        let f1 = freq_of_words(pw);
                        assert(f1 == bump(f0, key));
                        assert forall|i: int|
                            0 <= i < keys@.len() implies #[trigger] f1.contains_key(keys@[i]@)
                            && f1[keys@[i]@] == counts@[i] as int by {
                            if i != fi {
                                assert(keys@[i]@ != key);
                                assert(f0.contains_key(keys@[i]@));
                            }
                        }
                        assert forall|wvx: Seq<char>| #[trigger]
                            f1.contains_key(wvx) implies exists|i: int|
                            0 <= i < keys@.len() && (#[trigger] keys@[i])@ == wvx by {
                            if wvx == key {
                                assert(keys@[fi as int]@ == wvx);
                            } else {
                                assert(f0.contains_key(wvx));
                            }
                        }
                    }
                },
                Option::None => {
                    proof {
                        assert(!f0.contains_key(key)) by {
                            if f0.contains_key(key) {
                                let i = choose|i: int|
                                    0 <= i < ks0.len() && (#[trigger] ks0[i])@ == key;
                                assert(false);
                            }
                        }
                    }
                    keys.push(lw);
                    counts.push(1);
                    proof {
                        pw = pw1;
                        assert(pw =~= all_words(ls.take(li as int)) + wv.take(wi + 1));
                        let f1 = freq_of_words(pw);
                        assert(f1 == bump(f0, key));
                        assert(keys@ == ks0.push(lw));
                        assert forall|i: int|
                            0 <= i < keys@.len() implies #[trigger] f1.contains_key(keys@[i]@)
                            && f1[keys@[i]@] == counts@[i] as int by {
                            if i < ks0.len() {
                                assert(keys@[i] == ks0[i]);
                                assert(counts@[i] == cs0[i]);
                                assert(keys@[i]@ != key);
                                assert(f0.contains_key(keys@[i]@));
                            } else {
                                assert(keys@[i]@ == key);
                            }
                        }
                        assert forall|wvx: Seq<char>| #[trigger]
                            f1.contains_key(wvx) implies exists|i: int|
                            0 <= i < keys@.len() && (#[trigger] keys@[i])@ == wvx by {
                            if wvx == key {
                                assert(keys@[keys@.len() - 1]@ == wvx);
                            } else {
                                assert(f0.contains_key(wvx));
                                let i = choose|i: int|
                                    0 <= i < ks0.len() && (#[trigger] ks0[i])@ == wvx;
                                assert(keys@[i]@ == wvx);
                            }
                        }
                    }
                },
            }
            wi = wi + 1;
        }
        proof {
            assert(wv.take(ws@.len() as int) =~= wv);
            assert(pw =~= all_words(ls.take(li + 1)));
        }
        li = li + 1;
    }
    proof {
        assert(ls.take(lines@.len() as int) =~= ls);
    }
    let mut m: HashMap<String, usize> = HashMap::new();
    let mut j: usize = 0;
    while j < keys.len()
        invariant
            j <= keys@.len(),
            keys@.len() == counts@.len(),
            forall|a: int, b: int|
                0 <= a < b < keys@.len() ==> (#[trigger] keys@[a])@ != (#[trigger] keys@[b])@,
            forall|i: int|
                0 <= i < j ==> #[trigger] m@.contains_key(keys@[i]) && m@[keys@[i]] == counts@[i],
            forall|w: String| #[trigger]
                m@.contains_key(w) ==> exists|i: int| 0 <= i < j && keys@[i] == w,
        decreases keys@.len() - j,
    {
        let k = keys[j].clone();
        proof {
            assert(k@ == keys@[j as int]@);
        }
        map_insert(&mut m, k, counts[j]);
        proof {
            assert forall|i: int| 0 <= i < j + 1 implies #[trigger] m@.contains_key(keys@[i])
                && m@[keys@[i]] == counts@[i] by {
                if i < j {
                    assert(keys@[i]@ != keys@[j as int]@);
                }
            }
        }
        j = j + 1;
    }
    proof {
        let f = freq_of_words(all_words(ls));
        assert forall|w: String| #[trigger] m@.contains_key(w) implies f.contains_key(w@) && f[w@]
            == m@[w] by {
            let i = choose|i: int| 0 <= i < keys@.len() && keys@[i] == w;
            assert(freq_of_words(pw).contains_key(keys@[i]@));
        }
        assert forall|wvx: Seq<char>| #[trigger] f.contains_key(wvx) implies exists|w: String|
            #[trigger] m@.contains_key(w) && w@ == wvx by {
            let i = choose|i: int| 0 <= i < keys@.len() && (#[trigger] keys@[i])@ == wvx;
            assert(m@.contains_key(keys@[i]));
        }
    }
    m
}

} // verus!
