//! The summarizer: document analysis and the two ways of choosing sentences.
use crate::frequency::{covers, document_frequencies, index_terms, indexes, rows_holding, rows_view};
use crate::language::{algorithm_of, Language};
use crate::normalize::{byte_len, stop_words_of, terms_of, StopWords, Stemmer};
use crate::outside::{sentences_of, total_bytes, split_sentences, split_words, trim_end, trim_end_of, words_of};
use crate::select::{best_index, choose_by_budget, choose_by_count, chosen_by_budget, chosen_by_count, is_best, pick, pick_marked};
use vstd::prelude::*;

verus! {

/// The largest document, in bytes, that can be summarized.
pub const MAX_TEXT_LEN: usize = 4294967295;

/// Why a document cannot be summarized.
#[derive(Clone, Copy, Debug, PartialEq, Eq, Structural)]
pub enum SummaryError {
    /// The document is longer than `MAX_TEXT_LEN` bytes.
    InputTooLarge,
    /// The ratio is not in `0..=1`.
    InvalidRatio,
}

/// A length ratio `num / den`.
#[derive(Clone, Copy, Debug, PartialEq, Eq, Structural)]
pub struct Ratio {
    pub num: i64,
    pub den: i64,
}

impl Ratio {
    /// The ratio lies in `0..=1`.
    pub open spec fn valid(self) -> bool {
        self.den > 0 && 0 <= self.num <= self.den
    }

    /// `num / den` of `len`, rounded half away from zero.
    pub open spec fn target(self, len: nat) -> int {
        (2 * self.num * len + self.den) / (2 * self.den)
    }

    /// Whether the ratio lies in `0..=1`.
    pub fn is_valid(&self) -> (r: bool)
        ensures
            r == self.valid(),
    {
        self.den > 0 && 0 <= self.num && self.num <= self.den
    }
}

/// What a sentence adds to a summary's length: its bytes without trailing
/// whitespace, and one for a separator.
pub open spec fn cost_of(s: Seq<char>) -> int {
    let c: int = byte_len(trim_end_of(s)) as int + 1;
    if c > u64::MAX {
        u64::MAX as int
    } else {
        c
    }
}

/// The view of a list of string slices.
pub open spec fn strs_view(v: Seq<&str>) -> Seq<Seq<char>> {
    v.map_values(|s: &str| s@)
}

/// The sentences of `text`.
pub fn sentences<'a>(text: &'a str) -> (r: Vec<&'a str>)
    ensures
        strs_view(r@) == sentences_of(text@),
        forall|i: int| 0 <= i < r.len() ==> (#[trigger] r@[i])@.len() > 0,
        total_bytes(r@.map_values(|s: &str| s@)) <= vstd::utf8::encode_utf8(text@).len(),
        text@.len() == 0 ==> r.len() == 0,
{
    split_sentences(text)
}

/// A document cut into sentences and terms.
pub struct Analysis<'a> {
    /// The sentences, in document order.
    pub sentences: Vec<&'a str>,
    /// The distinct terms, in order of first occurrence.
    pub terms: Vec<String>,
    /// The terms of each sentence, by their position in `terms`.
    pub sentence_terms: Vec<Vec<usize>>,
    /// The terms of the whole document, by their position in `terms`.
    pub document_terms: Vec<usize>,
    /// For each term, how many sentences hold it.
    pub document_frequency: Vec<usize>,
    /// What each sentence adds to the length of a summary.
    pub costs: Vec<u64>,
    /// The document's length in bytes.
    pub text_len: usize,
}

impl<'a> Analysis<'a> {
    /// The parts agree in length.
    pub open spec fn wf(&self) -> bool {
        &&& self.sentence_terms.len() == self.sentences.len()
        &&& self.costs.len() == self.sentences.len()
        &&& self.document_frequency.len() == self.terms.len()
        &&& self.text_len <= MAX_TEXT_LEN
    }
}

/// A document summarizer for one language.
pub struct Summarizer {
    pub stemmer: Stemmer,
    pub stop_words: StopWords,
}

impl Summarizer {
    /// The terms of a string under this summarizer.
    pub open spec fn terms(&self, s: Seq<char>) -> Seq<Seq<char>> {
        terms_of(self.stop_words@, self.stemmer.algorithm, words_of(s))
    }

    /// `a` is what `analyze` makes of `text`.
    pub open spec fn analyzes(&self, text: &str, a: Analysis) -> bool {
        &&& a.wf()
        &&& strs_view(a.sentences@) == sentences_of(text@)
        &&& a.text_len == text.len()
        &&& indexes(
            a.terms@,
            a.sentence_terms@,
            Seq::new(a.sentences.len() as nat, |i: int| self.terms(a.sentences@[i]@)),
        )
        &&& covers(a.terms@, a.sentence_terms@)
        &&& a.document_terms@ == a.sentence_terms@.map_values(|r: Vec<usize>| r@).flatten()
        &&& forall|t: int|
            0 <= t < a.terms.len() ==> a.document_frequency@[t] == rows_holding(
                a.sentence_terms@,
                t as usize,
                a.sentences.len() as int,
            )
        &&& forall|i: int| 0 <= i < a.sentences.len() ==> a.costs@[i] == cost_of(a.sentences@[i]@)
    }

    /// A summarizer that stems and drops stop words as `language` asks.
    pub fn new(language: Language) -> (r: Summarizer)
        ensures
            r.stemmer.algorithm == algorithm_of(language),
            r.stop_words@ == stop_words_of(language),
    {
        Summarizer { stemmer: Stemmer::new(language), stop_words: StopWords::new(language) }
    }

    /// A summarizer that neither stems nor drops stop words.
    pub fn new_language_agnostic() -> (r: Summarizer)
        ensures
            r.stemmer.algorithm.is_none(),
            r.stop_words@ == Seq::<Seq<char>>::empty(),
    {
        Summarizer { stemmer: Stemmer { algorithm: None }, stop_words: StopWords::empty() }
    }

    /// The terms of a sentence: its words that are not stop words, in their
    /// normal form.
    pub fn sentence_terms(&self, sentence: &str) -> (r: Vec<String>)
        ensures
            r@.map_values(|t: String| t@) == self.terms(sentence@),
    {
        let words = split_words(sentence);
        let ghost ws = strs_view(words@);
        let mut r: Vec<String> = Vec::new();
        let mut i: usize = 0;
        while i < words.len()
            invariant
                ws == strs_view(words@),
                i <= words.len(),
                r@.map_values(|t: String| t@) =~= terms_of(
                    self.stop_words@,
                    self.stemmer.algorithm,
                    ws.take(i as int),
                ),
            decreases words.len() - i,
        {
            let w = words[i];
            assert(ws.take(i + 1).drop_last() =~= ws.take(i as int));
            if !self.stop_words.contains(w) {
                let t = self.stemmer.stem(w);
                let ghost before = r@;
                r.push(t);
                assert(r@.map_values(|t: String| t@) =~= before.map_values(|t: String| t@).push(
                    t@,
                ));
            }
            i = i + 1;
        }
        assert(ws.take(words.len() as int) =~= ws);
        r
    }
    /// Cuts a document into sentences and terms, and counts the terms.
    pub fn analyze<'a>(&self, text: &'a str) -> (r: Result<Analysis<'a>, SummaryError>)
        ensures
            r is Err <==> text.len() > MAX_TEXT_LEN,
            r is Err ==> r->Err_0 == SummaryError::InputTooLarge,
            r is Ok ==> self.analyzes(text, r->Ok_0),
    {
        if text.len() > MAX_TEXT_LEN {
            return Err(SummaryError::InputTooLarge);
        }
        let sentences = sentences(text);
        let mut rows: Vec<Vec<String>> = Vec::with_capacity(sentences.len());
        let mut costs: Vec<u64> = Vec::with_capacity(sentences.len());
        let mut i: usize = 0;
        while i < sentences.len()
            invariant
                i <= sentences.len(),
                rows.len() == i,
                costs.len() == i,
                forall|j: int|
                    0 <= j < i ==> (#[trigger] rows@[j])@.map_values(|t: String| t@) == self.terms(
                        sentences@[j]@,
                    ),
                forall|j: int| 0 <= j < i ==> #[trigger] costs@[j] == cost_of(sentences@[j]@),
            decreases sentences.len() - i,
        {
            let s = sentences[i];
            rows.push(self.sentence_terms(s));
            let trimmed = trim_end(s);
            let len = trimmed.len() as u64;
            let cost: u64 = if len < u64::MAX {
                len + 1
            } else {
                u64::MAX
            };
            costs.push(cost);
            i = i + 1;
        }
        let (table, ids) = index_terms(&rows);
        assert(rows_view(rows@) =~= Seq::new(
            sentences.len() as nat,
            |i: int| self.terms(sentences@[i]@),
        ));
        let mut all: Vec<usize> = Vec::new();
        let mut i: usize = 0;
        while i < ids.len()
            invariant
                i <= ids.len(),
                all@ == ids@.take(i as int).map_values(|r: Vec<usize>| r@).flatten(),
            decreases ids.len() - i,
        {
            let row = &ids[i];
            let mut k: usize = 0;
            while k < row.len()
                invariant
                    row == ids[i as int],
                    i < ids.len(),
                    k <= row.len(),
                    all@ == ids@.take(i as int).map_values(|r: Vec<usize>| r@).flatten() + row@.take(
                        k as int,
                    ),
                decreases row.len() - k,
            {
                all.push(row[k]);
                assert(row@.take(k + 1) =~= row@.take(k as int).push(row@[k as int]));
                k = k + 1;
            }
            proof {
                let f = |r: Vec<usize>| r@;
                assert(ids@.take(i + 1).map_values(f) =~= ids@.take(i as int).map_values(f).push(
                    row@,
                ));
                ids@.take(i as int).map_values(f).lemma_flatten_push(row@);
                assert(row@.take(row.len() as int) =~= row@);
            }
            i = i + 1;
        }
        assert(ids@.take(ids.len() as int) =~= ids@);
        let df = document_frequencies(&ids, table.len());
        Ok(
            Analysis {
                sentences,
                terms: table,
                sentence_terms: ids,
                document_terms: all,
                document_frequency: df,
                costs,
                text_len: text.len(),
            },
        )
    }

    /// The `n` sentences most similar to the core sentence, in document
    /// order; `similarity` holds each sentence's similarity to the core, as
    /// keys that order as the similarities do.
    pub fn summarize_sentences<'a>(&self, doc: &Analysis<'a>, similarity: &Vec<u64>, n: u32) -> (r:
        Vec<&'a str>)
        requires
            similarity.len() == doc.sentences.len(),
        ensures
            r@ == pick(doc.sentences@, chosen_by_count(similarity@, n as nat)),
    {
        let keep = choose_by_count(similarity, n as usize);
        pick_marked(&doc.sentences, &keep)
    }

    /// The sentences most similar to the core sentence, in document order,
    /// taken in order of similarity until their length exceeds `ratio` of the
    /// document's; the sentence that crosses that length is kept, so a
    /// non-empty document keeps at least one.
    pub fn summarize_ratio<'a>(&self, doc: &Analysis<'a>, similarity: &Vec<u64>, ratio: Ratio) -> (r:
        Result<Vec<&'a str>, SummaryError>)
        requires
            doc.wf(),
            similarity.len() == doc.sentences.len(),
        ensures
            r is Err <==> !ratio.valid(),
            r is Err ==> r->Err_0 == SummaryError::InvalidRatio,
            r is Ok ==> r->Ok_0@ == pick(
                doc.sentences@,
                chosen_by_budget(similarity@, doc.costs@, ratio.target(doc.text_len as nat)),
            ),
    {
        if !ratio.is_valid() {
            return Err(SummaryError::InvalidRatio);
        }
        let num = ratio.num as u128;
        let den = ratio.den as u128;
        let len = doc.text_len as u128;
        proof {
            assert(2 * num * len <= 2 * den * len) by (nonlinear_arith)
                requires
                    num <= den,
            ;
            assert(2 * den * len <= 2 * 9223372036854775807 * 4294967295) by (nonlinear_arith)
                requires
                    den <= 9223372036854775807,
                    len <= 4294967295,
            ;
            assert((2 * num * len + den) / (2 * den) <= len) by (nonlinear_arith)
                requires
                    num <= den,
                    den > 0,
            ;
        }
        let target = ((2 * num * len + den) / (2 * den)) as u64;
        let keep = choose_by_budget(similarity, &doc.costs, target);
        Ok(pick_marked(&doc.sentences, &keep))
    }

    /// The core sentence: the one most similar to the whole document, the
    /// first one on ties; `similarity` holds each sentence's similarity to
    /// the document, as keys that order as the similarities do.
    pub fn core_sentence(&self, similarity: &Vec<u64>) -> (r: usize)
        requires
            similarity.len() > 0,
        ensures
            is_best(similarity@, r as int),
    {
        best_index(similarity)
    }
}

} // verus!
