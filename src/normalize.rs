//! Term normalization: stop-word lookup, stemming and case folding.
use crate::language::{algorithm_of, stop_code_of, Language};
use crate::outside::{lower_of, lowercase, stem_word, stem_of, stop_list, stop_list_of};
use vstd::prelude::*;

verus! {

/// The longest word, in bytes, that is stemmed: the stemmers keep byte
/// offsets in `i32`, so longer words are only lowercased.
pub const MAX_STEM_LEN: usize = 2147483647;

/// The length in bytes of a string in UTF-8, as `str::len` gives it.
pub open spec fn byte_len(s: Seq<char>) -> usize {
    vstd::utf8::encode_utf8(s).len() as usize
}

/// A word short enough for the stemmers.
pub open spec fn stemmable(word: Seq<char>) -> bool {
    byte_len(word) <= MAX_STEM_LEN
}

/// The key a word is compared under: its stem when there is an algorithm
/// and the word is short enough, else the word itself, lowercased.
pub open spec fn normal_form(algorithm: Option<rust_stemmers::Algorithm>, word: Seq<char>) -> Seq<char> {
    match algorithm {
        Some(a) => if stemmable(word) {
            lower_of(stem_of(a, word))
        } else {
            lower_of(word)
        },
        None => lower_of(word),
    }
}

/// The lowercased stop words of a language.
pub open spec fn stop_words_of(language: Language) -> Seq<Seq<char>> {
    match stop_code_of(language) {
        Some(code) => match stop_list_of(code) {
            Some(words) => words.map_values(|w: Seq<char>| lower_of(w)),
            None => seq![],
        },
        None => seq![],
    }
}

/// The terms of a sequence of words: each word that is not a stop word, in
/// its normal form, in order.
pub open spec fn terms_of(
    stops: Seq<Seq<char>>,
    algorithm: Option<rust_stemmers::Algorithm>,
    words: Seq<Seq<char>>,
) -> Seq<Seq<char>>
    decreases words.len(),
{
    if words.len() == 0 {
        seq![]
    } else {
        let rest = terms_of(stops, algorithm, words.drop_last());
        if stops.contains(lower_of(words.last())) {
            rest
        } else {
            rest.push(normal_form(algorithm, words.last()))
        }
    }
}

/// A language's stop words, lowercased.
pub struct StopWords {
    words: Vec<String>,
}

impl View for StopWords {
    type V = Seq<Seq<char>>;

    closed spec fn view(&self) -> Seq<Seq<char>> {
        self.words@.map_values(|w: String| w@)
    }
}

impl StopWords {
    /// No stop words at all.
    pub fn empty() -> (r: StopWords)
        ensures
            r@ == Seq::<Seq<char>>::empty(),
    {
        let r = StopWords { words: Vec::new() };
        assert(r@ =~= Seq::<Seq<char>>::empty());
        r
    }

    /// The stop words of a language, lowercased; none where the language
    /// has no list.
    pub fn new(language: Language) -> (r: StopWords)
        ensures
            r@ == stop_words_of(language),
    {
        let code = match language.stop_code() {
            Some(code) => code,
            None => return StopWords::empty(),
        };
        let list = match stop_list(code) {
            Some(list) => list,
            None => return StopWords::empty(),
        };
        let ghost source = list@.map_values(|w: String| w@);
        let mut words: Vec<String> = Vec::with_capacity(list.len());
        let mut i: usize = 0;
        while i < list.len()
            invariant
                i <= list.len(),
                source == list@.map_values(|w: String| w@),
                words@.map_values(|w: String| w@) =~= source.take(i as int).map_values(
                    |w: Seq<char>| lower_of(w),
                ),
            decreases list.len() - i,
        {
            let w = lowercase(list[i].as_str());
            let ghost before = words@;
            words.push(w);
            assert(words@.map_values(|w: String| w@) =~= before.map_values(|w: String| w@).push(
                lower_of(source[i as int]),
            ));
            assert(source.take(i + 1).map_values(|w: Seq<char>| lower_of(w)) =~= source.take(
                i as int,
            ).map_values(|w: Seq<char>| lower_of(w)).push(lower_of(source[i as int])));
            i = i + 1;
        }
        assert(source.take(list.len() as int) =~= source);
        StopWords { words }
    }

    /// Whether `s`, lowercased, is one of the stop words.
    pub fn contains(&self, s: &str) -> (r: bool)
        ensures
            r == self@.contains(lower_of(s@)),
    {
        let lower = lowercase(s);
        let mut i: usize = 0;
        while i < self.words.len()
            invariant
                i <= self.words.len(),
                lower@ == lower_of(s@),
                forall|k: int| 0 <= k < i ==> self@[k] != lower@,
            decreases self.words.len() - i,
        {
            if self.words[i] == lower {
                assert(self@[i as int] == lower@);
                return true;
            }
            i = i + 1;
        }
        false
    }
}

/// Brings words to the form they are compared in.
pub struct Stemmer {
    pub algorithm: Option<rust_stemmers::Algorithm>,
}

impl Stemmer {
    /// The stemmer of a language; it only lowercases where the language has
    /// no stemming algorithm.
    pub fn new(language: Language) -> (r: Stemmer)
        ensures
            r.algorithm == algorithm_of(language),
    {
        Stemmer { algorithm: language.algorithm() }
    }

    /// The normal form of a word.
    pub fn stem(&self, s: &str) -> (r: String)
        ensures
            r@ == normal_form(self.algorithm, s@),
    {
        match self.algorithm {
            Some(a) => {
                if s.len() <= MAX_STEM_LEN {
                    let stemmed = stem_word(a, s);
                    lowercase(stemmed.as_str())
                } else {
                    lowercase(s)
                }
            },
            None => lowercase(s),
        }
    }
}

} // verus!
