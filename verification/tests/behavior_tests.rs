use corpux::counter::counter;
use corpux::generators::generate_html_table;
use corpux::generators::generate_svg;
use corpux::generators::ChartSpec;
use corpux::is_text_file;
use corpux::lang_detect::build_lang_infos;
use corpux::lang_detect::find_unicode;
use corpux::lang_detect::lang_detect;
use corpux::lang_detect::return_lang;
use corpux::lang_detect::script_table;
use corpux::lang_detect::Lang;
use corpux::lang_detect::Percent;
use corpux::ngram::generate_ngrams;
use corpux::preprocessor::clean_text;
use corpux::replace_invalid_utf8;
use corpux::report_generator;
use corpux::word_freq::word_frequency;

#[test]
fn percentage_sum_two_languages() {
    // "hello" is basic Latin (English), the Cyrillic word lands in Russian:
    // the two percentages share the denominator 11 and their numerators sum
    // to it, so the shares sum to exactly 100.
    let lines = vec!["hello \u{41f}\u{440}\u{438}\u{432}\u{435}\u{442}".to_string()];
    let infos = lang_detect(lines);
    assert_eq!(infos.len(), 2);
    assert_eq!(infos[0].lang, "English");
    assert_eq!(infos[0].total_character, 5);
    assert_eq!(infos[0].percentage, Percent { num: 5, den: 11 });
    assert_eq!(infos[1].lang, "Russian");
    assert_eq!(infos[1].total_character, 6);
    assert_eq!(infos[1].percentage, Percent { num: 6, den: 11 });
    let num_sum: usize = infos.iter().map(|i| i.percentage.num).sum();
    assert_eq!(num_sum, 11);
}

#[test]
fn single_language_is_full_share() {
    let infos = lang_detect(vec!["This is a test sentence in English".to_string()]);
    assert_eq!(infos.len(), 1);
    assert_eq!(infos[0].percentage, Percent { num: 28, den: 28 });
}

#[test]
fn equal_split_when_no_total() {
    let mut tally = vec![0usize; 59];
    tally[0] = 3;
    tally[6] = 4;
    let infos = build_lang_infos(&tally, 0);
    assert_eq!(infos.len(), 2);
    assert_eq!(infos[0].percentage, Percent { num: 1, den: 2 });
    assert_eq!(infos[1].percentage, Percent { num: 1, den: 2 });
}

#[test]
fn empty_document_yields_empty_distribution() {
    assert_eq!(lang_detect(Vec::new()).len(), 0);
    assert_eq!(lang_detect(vec!["   ".to_string()]).len(), 0);
}

#[test]
fn first_match_shadows_later_ranges() {
    let table = script_table();
    // 'a' lies in the English range and in the later Swahili, Turkish and
    // Filipino ranges; the first entry wins.
    assert_eq!(find_unicode(table, 'a'), Lang::English);
    // A Cyrillic letter is reached only at the Russian entry.
    assert_eq!(find_unicode(table, '\u{42f}'), Lang::Russian);
    // The same character twice yields the same tag.
    assert_eq!(find_unicode(table, '\u{e9}'), find_unicode(table, '\u{e9}'));
    // Spanish (0x00C0..0x00FF) precedes French for accented Latin.
    assert_eq!(find_unicode(table, '\u{e9}'), Lang::Spanish);
    // A private-use codepoint matches no range.
    assert_eq!(find_unicode(table, '\u{e000}'), Lang::Unknown);
}

#[test]
fn classification_is_idempotent() {
    let lines = vec![
        "hello \u{41f}\u{440}\u{438}\u{432}\u{435}\u{442}".to_string(),
        "\u{4f60}\u{597d} world".to_string(),
    ];
    let first = lang_detect(lines.clone());
    let second = lang_detect(lines);
    assert_eq!(first.len(), second.len());
    for (a, b) in first.iter().zip(second.iter()) {
        assert_eq!(a.lang, b.lang);
        assert_eq!(a.total_character, b.total_character);
        assert_eq!(a.percentage, b.percentage);
    }
}

#[test]
fn chart_has_one_bar_and_two_labels_per_record() {
    let infos = lang_detect(vec!["hello \u{41f}\u{440}\u{438}\u{432}\u{435}\u{442}".to_string()]);
    let chart = ChartSpec::from_infos(&infos);
    let svg = generate_svg(&chart);
    assert_eq!(svg.matches("<rect ").count(), 2);
    assert_eq!(svg.matches("<text ").count(), 4);
    assert!(svg.starts_with("<svg "));
    assert!(svg.ends_with("</svg>"));
}

#[test]
fn chart_of_empty_distribution_is_empty_canvas() {
    let chart = ChartSpec::from_infos(&Vec::new());
    let svg = generate_svg(&chart);
    assert_eq!(
        svg,
        "<svg width=\"1400\" height=\"150\" xmlns=\"http://www.w3.org/2000/svg\"></svg>"
    );
}

#[test]
fn chart_formats_percentages_to_two_decimals() {
    let infos = lang_detect(vec!["This is a test sentence in English".to_string()]);
    let chart = ChartSpec::from_infos(&infos);
    let svg = generate_svg(&chart);
    assert!(svg.contains("100.00%"));

    let mut tally = vec![0usize; 59];
    tally[0] = 1;
    tally[6] = 1;
    tally[14] = 1;
    let split = build_lang_infos(&tally, 0);
    let chart3 = ChartSpec::from_infos(&split);
    let svg3 = generate_svg(&chart3);
    // 100 / 3 rounds half-up to 33.33 at two decimals.
    assert_eq!(svg3.matches("33.33%").count(), 3);
}

#[test]
fn table_has_one_column_per_document_and_three_data_rows() {
    let counts = vec![
        counter(vec!["one two three".to_string()]),
        counter(vec!["four".to_string(), "five".to_string()]),
    ];
    let names = vec!["a.txt".to_string(), "b.txt".to_string()];
    let html = generate_html_table(&counts, &names);
    // Header: the metric label plus one <th> per document.
    assert_eq!(html.matches("<th ").count(), 3);
    // Three data rows, each with a label cell and one value cell per document.
    assert_eq!(html.matches("<td style=\"text-align:center\"").count(), 3);
    assert_eq!(html.matches("<td style=\"text-align:right\"").count(), 6);
    assert_eq!(html.matches("<tr").count(), 4);
    assert!(html.contains("a.txt"));
    assert!(html.contains("b.txt"));
    assert!(html.contains("Word Count"));
    assert!(html.contains("Unique Words"));
    assert!(html.contains("Line Count"));
}

#[test]
fn table_renders_the_counts() {
    let counts = vec![counter(vec![
        "This is a sample sentence.".to_string(),
        "Another sentence for testing.".to_string(),
        "This is a sample sentence.".to_string(),
    ])];
    let names = vec!["sample.txt".to_string()];
    let html = generate_html_table(&counts, &names);
    assert!(html.contains(">14</td>"));
    assert!(html.contains(">9</td>"));
    assert!(html.contains(">3</td>"));
}

#[test]
fn report_references_one_chart_per_document() {
    let counts = vec![counter(vec!["alpha".to_string()]), counter(vec!["beta".to_string()])];
    let names = vec!["x".to_string(), "y".to_string()];
    let report = report_generator(counts, names);
    assert!(report.contains("<img src=\"x.svg\" alt=\"SVG Image\">"));
    assert!(report.contains("<img src=\"y.svg\" alt=\"SVG Image\">"));
    assert!(report.contains("<h3>Languages included in the x</h3>"));
    assert_eq!(report.matches("<img ").count(), 2);
}

#[test]
fn clean_text_strips_symbols_and_collapses_whitespace() {
    assert_eq!(clean_text("Hello, world!"), "Hello world");
    assert_eq!(clean_text("  a \t  b  "), "a b");
    assert_eq!(clean_text(""), "");
    assert_eq!(clean_text("!!!"), "");
    assert_eq!(clean_text("num 42 ok"), "num 42 ok");
}

#[test]
fn word_frequency_lowercases_and_trims() {
    let freq = word_frequency(vec!["Test".to_string()]);
    assert_eq!(freq.get("test"), Some(&1));
    assert!(freq.get("Test").is_none());

    let freq2 = word_frequency(vec!["12ab34".to_string()]);
    assert_eq!(freq2.get("ab34"), None);
    assert_eq!(freq2.get("ab"), Some(&1));
}

#[test]
fn counter_counts_blank_lines_but_not_their_words() {
    let counts = counter(vec!["".to_string(), "   ".to_string(), "a b".to_string()]);
    assert_eq!(counts.line_count, 2);
    assert_eq!(counts.word_count, 2);
    assert_eq!(counts.unique_word_count, 2);
}

#[test]
fn counter_of_empty_input_is_zero() {
    let counts = counter(Vec::new());
    assert_eq!(counts.word_count, 0);
    assert_eq!(counts.line_count, 0);
    assert_eq!(counts.unique_word_count, 0);
}

#[test]
fn unigrams_list_every_word() {
    let ngrams = generate_ngrams(vec!["a b c".to_string()], 1);
    assert_eq!(ngrams, "a\nb\nc");
}

#[test]
fn text_file_extensions() {
    assert!(is_text_file("notes.txt"));
    assert!(is_text_file("dir/sub/essay.text"));
    assert!(is_text_file("README.md"));
    assert!(!is_text_file("image.png"));
    assert!(!is_text_file("noextension"));
    assert!(!is_text_file("dir.d/plain"));
    assert!(!is_text_file(".md"));
    assert!(!is_text_file("dir/.md"));
}

#[test]
fn utf8_replacement_keeps_valid_text() {
    assert_eq!(replace_invalid_utf8("caf\u{e9} \u{4f60}\u{597d}"), "caf\u{e9} \u{4f60}\u{597d}");
    assert_eq!(replace_invalid_utf8(""), "");
}

#[test]
fn language_names_match_tags() {
    assert_eq!(return_lang(Lang::English), "English");
    assert_eq!(return_lang(Lang::AccentedLatin), "Accented Latin");
    assert_eq!(return_lang(Lang::Ascii), "ASCII");
    assert_eq!(return_lang(Lang::Unknown), "Unknown");
}

#[test]
fn report_of_no_documents_is_a_bare_table() {
    let report = report_generator(Vec::new(), Vec::new());
    assert_eq!(report.matches("<th ").count(), 1);
    assert_eq!(report.matches("<img ").count(), 0);
    assert!(report.contains("<table>"));
    assert!(report.contains("</table>"));
}

#[test]
fn zero_order_ngrams_are_empty_windows() {
    // An order of zero yields one empty window per word plus one, per line.
    let ngrams = generate_ngrams(vec!["a b".to_string()], 0);
    assert_eq!(ngrams, "\n\n");
}

#[test]
fn chart_places_percentage_above_name() {
    let infos = lang_detect(vec!["This is a test sentence in English".to_string()]);
    let chart = ChartSpec::from_infos(&infos);
    let svg = generate_svg(&chart);
    // The single bar is full height (75), so the name sits at y = 65 and
    // the percentage above it at y = 45: smaller y is higher on the canvas.
    assert!(svg.contains("y=\"65\" text-anchor=\"middle\" font-size=\"12\">English</text>"));
    assert!(svg.contains("y=\"45\" text-anchor=\"middle\" font-size=\"12\">100.00%</text>"));
}

#[test]
fn clean_text_is_idempotent() {
    let samples = ["  Hello,   world! ", "a.b.c", "", "\t 42 --- x \u{4f60}\u{597d} "];
    for s in samples {
        let once = clean_text(s);
        assert_eq!(clean_text(&once), once);
    }
}
