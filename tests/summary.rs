use std::collections::HashMap;

use summary::frequency::term_counts;
use summary::{sentences, summarize_impl, Analysis, Language, Ratio, Stemmer, Summarizer, SummaryError};

const SPOT: &str = "See Spot. See Spot run. Run Spot, run!";

fn key(x: f64) -> u64 {
    let b = x.to_bits();
    if b >> 63 == 1 {
        !b
    } else {
        b | (1 << 63)
    }
}

fn unit_vector(ids: &Vec<usize>, doc: &Analysis) -> HashMap<usize, f64> {
    let n = doc.sentences.len() as f64;
    let mut v: HashMap<usize, f64> = term_counts(ids, doc.terms.len())
        .into_iter()
        .enumerate()
        .filter(|&(_, c)| c > 0)
        .map(|(t, c)| (t, c as f64 * (n / doc.document_frequency[t] as f64).log2()))
        .collect();
    let mag = v.values().map(|x| x * x).sum::<f64>().sqrt();
    if mag > 0.0 {
        for x in v.values_mut() {
            *x /= mag;
        }
    } else {
        v.clear();
    }
    v
}

fn cosine(a: &HashMap<usize, f64>, b: &HashMap<usize, f64>) -> f64 {
    a.iter().filter_map(|(t, x)| b.get(t).map(|y| x * y)).sum()
}

/// Similarity keys of every sentence to the core sentence.
fn similarities(s: &Summarizer, doc: &Analysis) -> Vec<u64> {
    let vectors: Vec<_> = doc.sentence_terms.iter().map(|r| unit_vector(r, doc)).collect();
    let overall = unit_vector(&doc.document_terms, doc);
    let to_doc: Vec<u64> = vectors.iter().map(|v| key(cosine(v, &overall))).collect();
    let core = s.core_sentence(&to_doc);
    vectors.iter().map(|v| key(cosine(v, &vectors[core]))).collect()
}

fn by_count<'a>(s: &Summarizer, text: &'a str, n: u32) -> Vec<&'a str> {
    let doc = s.analyze(text).unwrap();
    let sim = similarities(s, &doc);
    s.summarize_sentences(&doc, &sim, n)
}

fn by_ratio<'a>(s: &Summarizer, text: &'a str, ratio: Ratio) -> Result<Vec<&'a str>, SummaryError> {
    let doc = s.analyze(text).unwrap();
    let sim = similarities(s, &doc);
    s.summarize_ratio(&doc, &sim, ratio)
}

#[test]
fn spot_two_sentences_in_document_order() {
    let s = Summarizer::new(Language::English);
    let all = sentences(SPOT);
    assert_eq!(all, vec!["See Spot. ", "See Spot run. ", "Run Spot, run!"]);
    let r = by_count(&s, SPOT, 2);
    assert_eq!(r.len(), 2);
    let positions: Vec<usize> = r.iter().map(|x| all.iter().position(|y| y == x).unwrap()).collect();
    assert!(positions[0] < positions[1]);
}

#[test]
fn count_covering_document_returns_everything() {
    let s = Summarizer::new(Language::English);
    let all = sentences(SPOT);
    assert_eq!(by_count(&s, SPOT, 3), all);
    assert_eq!(by_count(&s, SPOT, 100), all);
}

#[test]
fn count_summary_is_short_subsequence() {
    let s = Summarizer::new(Language::English);
    let text = "Cats purr. Dogs bark loudly. Birds sing songs. Cats and dogs play. Fish swim.";
    let all = sentences(text);
    assert_eq!(all.len(), 5);
    for n in 1..=6u32 {
        let r = by_count(&s, text, n);
        assert!(r.len() <= n as usize && r.len() <= all.len());
        assert_eq!(r.len(), (n as usize).min(all.len()));
        let mut last = None;
        for x in &r {
            let p = all.iter().position(|y| y == x).unwrap();
            assert!(last.map_or(true, |l| l < p));
            last = Some(p);
        }
    }
}

#[test]
fn empty_document_gives_empty_summaries() {
    let s = Summarizer::new(Language::English);
    let doc = s.analyze("").unwrap();
    assert!(doc.sentences.is_empty());
    assert!(s.summarize_sentences(&doc, &Vec::new(), 3).is_empty());
    assert_eq!(s.summarize_ratio(&doc, &Vec::new(), Ratio { num: 1, den: 2 }), Ok(Vec::new()));
}

#[test]
fn single_sentence_is_returned_unchanged() {
    let s = Summarizer::new(Language::English);
    let text = "Hello wide world.";
    assert_eq!(by_count(&s, text, 1), vec![text]);
    assert_eq!(by_count(&s, text, 7), vec![text]);
    assert_eq!(by_ratio(&s, text, Ratio { num: 1, den: 100 }), Ok(vec![text]));
    assert_eq!(by_ratio(&s, text, Ratio { num: 1, den: 1 }), Ok(vec![text]));
}

#[test]
fn ratio_zero_keeps_one_sentence() {
    let s = Summarizer::new(Language::English);
    assert_eq!(by_ratio(&s, SPOT, Ratio { num: 0, den: 1 }).unwrap().len(), 1);
}

#[test]
fn ratio_one_keeps_everything() {
    let s = Summarizer::new(Language::English);
    assert_eq!(by_ratio(&s, SPOT, Ratio { num: 1, den: 1 }), Ok(sentences(SPOT)));
}

#[test]
fn ratio_budget_stops_after_crossing_sentence() {
    let s = Summarizer::new_language_agnostic();
    let doc = s.analyze("Aa bb. Cc dd ee. Ff.").unwrap();
    assert_eq!(doc.costs, vec![7, 10, 4]);
    // Ranked 2, 0, 1: costs 4, 11, 21 against a target of 5.
    let r = s.summarize_ratio(&doc, &vec![5, 3, 9], Ratio { num: 1, den: 4 }).unwrap();
    assert_eq!(r, vec!["Aa bb. ", "Ff."]);
}

#[test]
fn summaries_are_repeatable() {
    let s = Summarizer::new(Language::English);
    let text = "Cats purr. Dogs bark loudly. Birds sing songs. Cats and dogs play. Fish swim.";
    assert_eq!(by_count(&s, text, 2), by_count(&s, text, 2));
    assert_eq!(by_ratio(&s, text, Ratio { num: 1, den: 3 }), by_ratio(&s, text, Ratio { num: 1, den: 3 }));
}

#[test]
fn ratio_bounds() {
    let s = Summarizer::new(Language::English);
    let doc = s.analyze(SPOT).unwrap();
    let sim = vec![1, 2, 3];
    assert_eq!(s.summarize_ratio(&doc, &sim, Ratio { num: -1, den: 100 }), Err(SummaryError::InvalidRatio));
    assert_eq!(s.summarize_ratio(&doc, &sim, Ratio { num: 101, den: 100 }), Err(SummaryError::InvalidRatio));
    assert_eq!(s.summarize_ratio(&doc, &sim, Ratio { num: 1, den: 0 }), Err(SummaryError::InvalidRatio));
    assert!(s.summarize_ratio(&doc, &sim, Ratio { num: 0, den: 1 }).is_ok());
    assert!(s.summarize_ratio(&doc, &sim, Ratio { num: 1, den: 1 }).is_ok());
}

#[test]
fn ordinary_document_is_not_too_large() {
    let s = Summarizer::new(Language::English);
    let doc = s.analyze(SPOT).unwrap();
    assert_eq!(doc.text_len, SPOT.len());
    assert_eq!(doc.sentences.len(), 3);
}

#[test]
fn ranking_ties_go_to_earlier_sentence() {
    let s = Summarizer::new_language_agnostic();
    let doc = s.analyze(SPOT).unwrap();
    assert_eq!(s.summarize_sentences(&doc, &vec![4, 4, 4], 1), vec!["See Spot. "]);
    assert_eq!(s.summarize_sentences(&doc, &vec![1, 4, 4], 2), vec!["See Spot run. ", "Run Spot, run!"]);
    assert_eq!(s.core_sentence(&vec![3, 7, 7, 1]), 1);
}

#[test]
fn assembles_in_document_order() {
    let all = vec!["a. ", "b. ", "c."];
    assert_eq!(summarize_impl(all.clone(), vec![2, 0]), vec!["a. ", "c."]);
    assert_eq!(summarize_impl(all, vec![9, 1]), vec!["b. "]);
}

#[test]
fn stop_words_are_case_insensitive() {
    let s = Summarizer::new(Language::English);
    assert!(s.stop_words.contains("THE"));
    assert!(s.stop_words.contains("the"));
    assert!(!s.stop_words.contains("Spot"));
    assert!(!Summarizer::new(Language::Tamil).stop_words.contains("the"));
    assert!(!Summarizer::new_language_agnostic().stop_words.contains("the"));
}

#[test]
fn stemming_follows_language() {
    assert_eq!(Stemmer::new(Language::English).stem("Running"), "run");
    assert_eq!(Stemmer::new(Language::Thai).stem("Running"), "running");
    let agnostic = Summarizer::new_language_agnostic();
    assert_eq!(agnostic.sentence_terms("The Quick foxes!"), vec!["the", "quick", "foxes"]);
    let english = Summarizer::new(Language::English);
    assert_eq!(english.sentence_terms("The foxes are jumping"), vec!["fox", "jump"]);
}

#[test]
fn counts_each_term() {
    assert_eq!(term_counts(&vec![0, 2, 0, 3], 4), vec![2, 0, 1, 1]);
    assert_eq!(term_counts(&vec![], 2), vec![0, 0]);
}

#[test]
fn term_and_document_frequencies() {
    let s = Summarizer::new_language_agnostic();
    let doc = s.analyze("Red fish red. Blue fish.").unwrap();
    assert_eq!(doc.terms, vec!["red", "fish", "blue"]);
    assert_eq!(doc.sentence_terms, vec![vec![0, 1, 0], vec![2, 1]]);
    assert_eq!(doc.document_terms, vec![0, 1, 0, 2, 1]);
    assert_eq!(doc.document_frequency, vec![1, 2, 1]);
}
