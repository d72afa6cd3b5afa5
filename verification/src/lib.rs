pub mod counter;
pub mod generators;
pub mod lang_detect;
pub mod ngram;
pub mod preprocessor;
pub mod text;
pub mod word_freq;

use vstd::prelude::*;

verus! {

/// Re-encodes the characters of `input` as a fresh `String`.
///
/// Rust strings are always valid UTF-8, so encoding each character back
/// to UTF-8 and decoding again reproduces the input exactly.
pub fn replace_invalid_utf8(input: &str) -> (r: String)
    ensures
        r@ == input@,
{
    input.to_owned()
}

/// Position `d` holds the dot that starts a path's extension: it is inside
/// the final path component, not at the component's start, and nothing after
/// it is another dot or a separator.
pub open spec fn valid_dot(s: Seq<char>, d: int) -> bool {
    &&& 0 < d < s.len()
    &&& s[d] == '.'
    &&& s[d - 1] != '/'
    &&& forall|k: int| d < k < s.len() ==> s[k] != '.' && s[k] != '/'
}

/// The path ends in a `.`-separated extension equal to `e`.
pub open spec fn has_extension(s: Seq<char>, e: Seq<char>) -> bool {
    exists|d: int| valid_dot(s, d) && s.subrange(d + 1, s.len() as int) == e
}

proof fn lemma_dot_unique(s: Seq<char>, d: int)
    requires
        valid_dot(s, d),
    ensures
        forall|dp: int| valid_dot(s, dp) ==> dp == d,
{
    assert forall|dp: int| valid_dot(s, dp) implies dp == d by {
        if dp < d {
            assert(s[d] == '.');
        } else if dp > d {
            assert(s[dp] == '.');
        }
    }
}

/// Decides whether a path names a text file: its extension is `txt`,
/// `text` or `md`.
pub fn is_text_file(file_path: &str) -> (r: bool)
    ensures
        r == (has_extension(file_path@, "txt"@) || has_extension(file_path@, "text"@)
            || has_extension(file_path@, "md"@)),
{
    let n: usize = file_path.unicode_len();
    let mut k: usize = n;
    while k > 0
        invariant
            k <= n,
            n == file_path@.len(),
            forall|m: int| k <= m < n ==> file_path@[m] != '.' && file_path@[m] != '/',
        decreases k,
    {
        let c: char = file_path.get_char(k - 1);
        if c == '/' {
            proof {
                assert forall|dp: int| !valid_dot(file_path@, dp) by {
                    if valid_dot(file_path@, dp) {
                        if dp >= k {
                            assert(file_path@[dp] != '.');
                        } else if dp == k - 1 {
                            assert(file_path@[dp] == '.');
                        } else {
                            assert(file_path@[k - 1] != '/');
                        }
                    }
                }
            }
            return false;
        }
        if c == '.' {
            let d: usize = k - 1;
            if d == 0 {
                proof {
                    assert forall|dp: int| !valid_dot(file_path@, dp) by {
                        if valid_dot(file_path@, dp) {
                            assert(dp >= k);
                            assert(file_path@[dp] != '.');
                        }
                    }
                }
                return false;
            }
            let b: char = file_path.get_char(d - 1);
            if b == '/' {
                proof {
                    assert forall|dp: int| !valid_dot(file_path@, dp) by {
                        if valid_dot(file_path@, dp) {
                            if dp < d {
                                assert(file_path@[d as int] == '.');
                            } else if dp > d {
                                assert(file_path@[dp] != '.');
                            } else {
                                assert(file_path@[d - 1] == '/');
                            }
                        }
                    }
                }
                return false;
            }
            proof {
                assert(valid_dot(file_path@, d as int));
                lemma_dot_unique(file_path@, d as int);
            }
            let ext = file_path.substring_char(k, n).to_owned();
            let r = ext.eq(&String::from_str("txt")) || ext.eq(&String::from_str("text")) || ext.eq(
                &String::from_str("md"),
            );
            proof {
                let s = file_path@;
                let tail = s.subrange(d + 1, s.len() as int);
                assert(ext@ == tail);
                if r {
                } else {
                    assert forall|e: Seq<char>|
                        e == "txt"@ || e == "text"@ || e == "md"@ implies !has_extension(
                        s,
                        e,
                    ) by {
                        if has_extension(s, e) {
                            let dp = choose|dp: int|
                                valid_dot(s, dp) && s.subrange(dp + 1, s.len() as int) == e;
                            assert(dp == d);
                        }
                    }
                }
            }
            return r;
        }
        k = k - 1;
    }
    proof {
        assert forall|d: int| !valid_dot(file_path@, d) by {
            if 0 < d < n {
                assert(file_path@[d] != '.');
            }
        }
    }
    false
}

/// The per-document report references: a heading naming the document, then
/// an image reference to its chart artifact, for each document in order.
pub open spec fn svg_refs(names: Seq<Seq<char>>) -> Seq<char>
    decreases names.len(),
{
    if names.len() == 0 {
        Seq::empty()
    } else {
        svg_refs(names.drop_last()) + "<h3>Languages included in the "@ + names.last() + "</h3>"@
            + "<img src=\""@ + names.last() + ".svg\" alt=\"SVG Image\">"@
    }
}

/// The whole report fragment: the statistics table followed by one heading
/// and chart reference per document.
pub open spec fn spec_report(cs: Seq<crate::counter::Counts>, names: Seq<Seq<char>>) -> Seq<
    char,
> {
    crate::generators::spec_html_table(cs, names) + svg_refs(names)
}

/// Builds the report fragment of `spec_report`: the statistics table, then
/// a heading and an `<img>` reference to `<name>.svg` for each document.
/// Writing the charts themselves is the caller's concern.
pub fn report_generator(counts: Vec<crate::counter::Counts>, file_names: Vec<String>) -> (r:
    String)
    ensures
        r@ == spec_report(counts@, crate::text::views_of(file_names@)),
{
    let ghost nv = crate::text::views_of(file_names@);
    let mut report = crate::generators::generate_html_table(
        counts.as_slice(),
        file_names.as_slice(),
    );
    let ghost base = report@;
    proof {
        assert(nv.take(0) =~= Seq::<Seq<char>>::empty());
    }
    let mut i: usize = 0;
    while i < file_names.len()
        invariant
            i <= nv.len(),
            nv == crate::text::views_of(file_names@),
            report@ == base + svg_refs(nv.take(i as int)),
        decreases nv.len() - i,
    {
        report.append("<h3>Languages included in the ");
        report.append(file_names[i].as_str());
        report.append("</h3>");
        report.append("<img src=\"");
        report.append(file_names[i].as_str());
        report.append(".svg\" alt=\"SVG Image\">");
        proof {
            assert(nv[i as int] == file_names@[i as int]@);
            assert(nv.take(i + 1).drop_last() =~= nv.take(i as int));
            assert(nv.take(i + 1).last() == nv[i as int]);
            assert(report@ =~= base + svg_refs(nv.take(i + 1)));
        }
        i = i + 1;
    }
    proof {
        assert(nv.take(nv.len() as int) =~= nv);
    }
    report
}

} // verus!
