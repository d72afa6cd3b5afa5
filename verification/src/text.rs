use vstd::prelude::*;
use vstd::string::StrSliceExecFns;
use vstd::string::StringExecFns;

verus! {

/// The Unicode `White_Space` characters: the separators on which lines are
/// split into words.
pub open spec fn is_space(c: char) -> bool {
    let u = c as u32;
    ||| u == 0x20
    ||| (0x09 <= u && u <= 0x0D)
    ||| u == 0x85
    ||| u == 0xA0
    ||| u == 0x1680
    ||| (0x2000 <= u && u <= 0x200A)
    ||| u == 0x2028
    ||| u == 0x2029
    ||| u == 0x202F
    ||| u == 0x205F
    ||| u == 0x3000
}

/// Decides `is_space` on a concrete character.
pub fn is_space_char(c: char) -> (r: bool)
    ensures
        r == is_space(c),
{
    let u: u32 = c as u32;
    u == 0x20 || (0x09 <= u && u <= 0x0D) || u == 0x85 || u == 0xA0 || u == 0x1680 || (0x2000
        <= u && u <= 0x200A) || u == 0x2028 || u == 0x2029 || u == 0x202F || u == 0x205F || u
        == 0x3000
}

/// The whitespace-delimited words of `s`: the maximal runs of non-space
/// characters, in order.
pub open spec fn words_of(s: Seq<char>) -> Seq<Seq<char>>
    decreases s.len(),
{
    if s.len() == 0 {
        Seq::empty()
    } else {
        let prefix = s.drop_last();
        let c = s.last();
        if is_space(c) {
            words_of(prefix)
        } else if s.len() == 1 || is_space(s[s.len() - 2]) {
            words_of(prefix).push(seq![c])
        } else {
            let ws = words_of(prefix);
            ws.update(ws.len() - 1, ws.last().push(c))
        }
    }
}

/// The character sequences behind a sequence of strings.
pub open spec fn views_of(v: Seq<String>) -> Seq<Seq<char>> {
    v.map_values(|s: String| s@)
}

/// Splits a line into its whitespace-delimited words.
pub fn split_words(line: &str) -> (ws: Vec<String>)
    ensures
        views_of(ws@) == words_of(line@),
{
    let n: usize = line.unicode_len();
    let mut ws: Vec<String> = Vec::new();
    let mut start: usize = 0;
    let mut in_word: bool = false;
    let mut i: usize = 0;
    while i < n
        invariant
            n == line@.len(),
            i <= n,
            in_word ==> start < i && (forall|k: int|
                start <= k < i ==> !is_space(line@[k])) && (start == 0 || is_space(
                line@[start - 1],
            )),
            !in_word ==> (i == 0 || is_space(line@[i - 1])),
            in_word ==> views_of(ws@).push(line@.subrange(start as int, i as int)) == words_of(
                line@.take(i as int),
            ),
            !in_word ==> views_of(ws@) == words_of(line@.take(i as int)),
        decreases n - i,
    {
        let c: char = line.get_char(i);
        proof {
            assert(line@.take(i + 1).drop_last() =~= line@.take(i as int));
            assert(line@.take(i + 1).last() == line@[i as int]);
        }
        if is_space_char(c) {
            if in_word {
                let w: String = line.substring_char(start, i).to_owned();
                ws.push(w);
                in_word = false;
                proof {
                    assert(views_of(ws@) =~= views_of(ws@.drop_last()).push(
                        line@.subrange(start as int, i as int),
                    ));
                }
            }
        } else {
            if !in_word {
                start = i;
                in_word = true;
                proof {
                    assert(line@.subrange(i as int, i + 1) =~= seq![line@[i as int]]);
                }
            } else {
                proof {
                    let t = line@.take(i + 1);
                    assert(t[t.len() - 2] == line@[i - 1]);
                    let prev = words_of(line@.take(i as int));
                    assert(prev.last() == line@.subrange(start as int, i as int));
                    assert(line@.subrange(start as int, i + 1) =~= line@.subrange(
                        start as int,
                        i as int,
                    ).push(line@[i as int]));
                    assert(views_of(ws@).push(line@.subrange(start as int, i + 1)) =~= prev.update(
                        prev.len() - 1,
                        prev.last().push(line@[i as int]),
                    ));
                }
            }
        }
        i = i + 1;
    }
    if in_word {
        let w: String = line.substring_char(start, n).to_owned();
        ws.push(w);
        proof {
            assert(views_of(ws@) =~= views_of(ws@.drop_last()).push(
                line@.subrange(start as int, n as int),
            ));
            assert(line@.take(n as int) =~= line@);
        }
    } else {
        proof {
            assert(line@.take(n as int) =~= line@);
        }
    }
    ws
}

/// The words of `s` are non-empty, hold no whitespace, and keep any
/// property that every character of `s` has.
pub proof fn lemma_words_wf(s: Seq<char>, p: spec_fn(char) -> bool)
    requires
        forall|k: int| 0 <= k < s.len() ==> p(#[trigger] s[k]),
    ensures
        forall|i: int| 0 <= i < words_of(s).len() ==> (#[trigger] words_of(s)[i]).len() > 0,
        forall|i: int, j: int|
            0 <= i < words_of(s).len() && 0 <= j < words_of(s)[i].len() ==> !is_space(
                #[trigger] words_of(s)[i][j],
            ) && p(words_of(s)[i][j]),
    decreases s.len(),
{
    if s.len() > 0 {
        let prefix = s.drop_last();
        let c = s.last();
        assert(forall|k: int| 0 <= k < prefix.len() ==> p(#[trigger] prefix[k]));
        lemma_words_wf(prefix, p);
        let prev = words_of(prefix);
        let cur = words_of(s);
        if is_space(c) {
            assert(cur == prev);
        } else if s.len() == 1 || is_space(s[s.len() - 2]) {
            assert(cur == prev.push(seq![c]));
            assert forall|i: int, j: int|
                0 <= i < cur.len() && 0 <= j < cur[i].len() implies !is_space(
                #[trigger] cur[i][j],
            ) && p(cur[i][j]) by {
                if i < prev.len() {
                    assert(cur[i] == prev[i]);
                } else {
                    assert(cur[i] == seq![c]);
                    assert(cur[i][j] == c);
                    assert(p(s[s.len() - 1]));
                }
            }
        } else {
            assert(cur == prev.update(prev.len() - 1, prev.last().push(c)));
            lemma_words_nonempty_tail(prefix);
            assert(prev.len() > 0);
            assert forall|i: int|
                0 <= i < cur.len() implies (#[trigger] cur[i]).len() > 0 by {
                if i < prev.len() - 1 {
                    assert(cur[i] == prev[i]);
                } else {
                    assert(cur[i] == prev.last().push(c));
                }
            }
            assert forall|i: int, j: int|
                0 <= i < cur.len() && 0 <= j < cur[i].len() implies !is_space(
                #[trigger] cur[i][j],
            ) && p(cur[i][j]) by {
                if i < prev.len() - 1 {
                    assert(cur[i] == prev[i]);
                } else {
                    assert(cur[i] == prev.last().push(c));
                    if j < prev.last().len() {
                        assert(cur[i][j] == prev[prev.len() - 1][j]);
                    } else {
                        assert(cur[i][j] == c);
                        assert(p(s[s.len() - 1]));
                    }
                }
            }
        }
    }
}

/// A string that ends in a non-whitespace character holds at least one
/// word.
pub proof fn lemma_words_nonempty_tail(s: Seq<char>)
    requires
        s.len() > 0,
        !is_space(s.last()),
    ensures
        words_of(s).len() > 0,
    decreases s.len(),
{
    if !(s.len() == 1 || is_space(s[s.len() - 2])) {
        lemma_words_nonempty_tail(s.drop_last());
    }
}

/// Appending a whitespace character starts no word and ends none that the
/// splitter would keep open: the words are unchanged.
pub proof fn lemma_words_append_space(s: Seq<char>, c: char)
    requires
        is_space(c),
    ensures
        words_of(s.push(c)) == words_of(s),
{
    assert(s.push(c).drop_last() =~= s);
    assert(s.push(c).last() == c);
}

/// Appending a whole non-empty, whitespace-free word to a string that is
/// empty or ends in whitespace appends exactly that word to the split.
pub proof fn lemma_words_append_word(s: Seq<char>, w: Seq<char>)
    requires
        w.len() > 0,
        forall|j: int| 0 <= j < w.len() ==> !is_space(#[trigger] w[j]),
        s.len() == 0 || is_space(s.last()),
    ensures
        words_of(s + w) == words_of(s).push(w),
    decreases w.len(),
{
    let t = s + w;
    assert(t.len() == s.len() + w.len());
    assert(t.last() == w.last());
    if w.len() == 1 {
        assert(t.drop_last() =~= s);
        if s.len() == 0 {
            assert(t.len() == 1);
            assert(words_of(t) == words_of(s).push(seq![t.last()]));
        } else {
            assert(t[t.len() - 2] == s.last());
            assert(words_of(t) == words_of(s).push(seq![t.last()]));
        }
        assert(seq![t.last()] =~= w);
    } else {
        let w0 = w.drop_last();
        assert(forall|j: int| 0 <= j < w0.len() ==> !is_space(#[trigger] w0[j]));
        lemma_words_append_word(s, w0);
        assert(t.drop_last() =~= s + w0);
        assert(t[t.len() - 2] == w[w.len() - 2]);
        assert(!is_space(t[t.len() - 2]));
        let prev = words_of(s + w0);
        assert(prev == words_of(s).push(w0));
        assert(prev.len() > 0);
        assert(prev.last() == w0);
        assert(words_of(t) == prev.update(prev.len() - 1, prev.last().push(t.last())));
        assert(w0.push(w.last()) =~= w);
        assert(prev.update(prev.len() - 1, w) =~= words_of(s).push(w));
    }
}

/// The decimal digit with value `d`.
pub open spec fn digit_char(d: int) -> char {
    if d == 0 {
        '0'
    } else if d == 1 {
        '1'
    } else if d == 2 {
        '2'
    } else if d == 3 {
        '3'
    } else if d == 4 {
        '4'
    } else if d == 5 {
        '5'
    } else if d == 6 {
        '6'
    } else if d == 7 {
        '7'
    } else if d == 8 {
        '8'
    } else {
        '9'
    }
}

/// The decimal digits of `n`, most significant first, with no leading zero
/// except for `n == 0` itself.
pub open spec fn dec_str(n: int) -> Seq<char>
    decreases n,
{
    if n < 10 {
        seq![digit_char(n)]
    } else {
        dec_str(n / 10).push(digit_char(n % 10))
    }
}

/// Appends one decimal digit to `s`.
fn push_digit(s: &mut String, d: u128)
    requires
        d < 10,
    ensures
        final(s)@ == old(s)@ + seq![digit_char(d as int)],
{
    if d == 0 {
        proof {
            reveal_strlit("0");
            assert("0"@ =~= seq![digit_char(0)]);
        }
        s.append("0");
    } else if d == 1 {
        proof {
            reveal_strlit("1");
            assert("1"@ =~= seq![digit_char(1)]);
        }
        s.append("1");
    } else if d == 2 {
        proof {
            reveal_strlit("2");
            assert("2"@ =~= seq![digit_char(2)]);
        }
        s.append("2");
    } else if d == 3 {
        proof {
            reveal_strlit("3");
            assert("3"@ =~= seq![digit_char(3)]);
        }
        s.append("3");
    } else if d == 4 {
        proof {
            reveal_strlit("4");
            assert("4"@ =~= seq![digit_char(4)]);
        }
        s.append("4");
    } else if d == 5 {
        proof {
            reveal_strlit("5");
            assert("5"@ =~= seq![digit_char(5)]);
        }
        s.append("5");
    } else if d == 6 {
        proof {
            reveal_strlit("6");
            assert("6"@ =~= seq![digit_char(6)]);
        }
        s.append("6");
    } else if d == 7 {
        proof {
            reveal_strlit("7");
            assert("7"@ =~= seq![digit_char(7)]);
        }
        s.append("7");
    } else if d == 8 {
        proof {
            reveal_strlit("8");
            assert("8"@ =~= seq![digit_char(8)]);
        }
        s.append("8");
    } else {
        proof {
            reveal_strlit("9");
            assert("9"@ =~= seq![digit_char(9)]);
        }
        s.append("9");
    }
}

/// Appends the decimal digits of `n` to `s`.
pub fn push_dec(s: &mut String, n: u128)
    ensures
        final(s)@ == old(s)@ + dec_str(n as int),
    decreases n,
{
    if n < 10 {
        push_digit(s, n);
    } else {
        push_dec(s, n / 10);
        push_digit(s, n % 10);
        proof {
            assert(s@ =~= old(s)@ + dec_str(n as int));
        }
    }
}

} // verus!
