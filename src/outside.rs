//! What the library takes from other crates and from std, with what it
//! relies on in each.
use unicode_segmentation::UnicodeSegmentation;
use vstd::prelude::*;

verus! {

/// The stemming algorithms of `rust_stemmers`, a plain enum without fields.
#[verifier::external_type_specification]
pub struct ExAlgorithm(rust_stemmers::Algorithm);

/// The sentences that UAX#29 sentence segmentation finds in a text, keeping
/// only those that hold an alphanumeric character.
pub uninterp spec fn sentences_of(text: Seq<char>) -> Seq<Seq<char>>;

/// The words that UAX#29 word segmentation finds in a text, keeping only
/// those that hold an alphanumeric character.
pub uninterp spec fn words_of(text: Seq<char>) -> Seq<Seq<char>>;

/// The lowercase form of a string, by Unicode's lowercase mapping.
pub uninterp spec fn lower_of(s: Seq<char>) -> Seq<char>;

/// The stem of a word under a Snowball algorithm.
pub uninterp spec fn stem_of(algorithm: rust_stemmers::Algorithm, word: Seq<char>) -> Seq<char>;

/// A string with its trailing whitespace removed.
pub uninterp spec fn trim_end_of(s: Seq<char>) -> Seq<char>;

/// The stop-word list that `stop_words` has for a language code, if any.
pub uninterp spec fn stop_list_of(code: Seq<char>) -> Option<Seq<Seq<char>>>;

/// The UTF-8 length of a list of strings, all together.
pub open spec fn total_bytes(parts: Seq<Seq<char>>) -> nat
    decreases parts.len(),
{
    if parts.len() == 0 {
        0
    } else {
        total_bytes(parts.drop_last()) + vstd::utf8::encode_utf8(parts.last()).len()
    }
}

/// Relies on `UnicodeSegmentation::unicode_sentences`: the sentences depend
/// on the text alone; they are pieces of the text, in order and without
/// overlap, each holding a letter or digit, so an empty text has none.
#[verifier::external_body]
pub(crate) fn split_sentences<'a>(text: &'a str) -> (r: Vec<&'a str>)
    ensures
        r@.map_values(|s: &str| s@) == sentences_of(text@),
        forall|i: int| 0 <= i < r@.len() ==> (#[trigger] r@[i])@.len() > 0,
        total_bytes(r@.map_values(|s: &str| s@)) <= vstd::utf8::encode_utf8(text@).len(),
        text@.len() == 0 ==> r@.len() == 0,
{
    text.unicode_sentences().collect()
}

/// Relies on `UnicodeSegmentation::unicode_words`: the words depend on the
/// text alone.
#[verifier::external_body]
pub(crate) fn split_words<'a>(text: &'a str) -> (r: Vec<&'a str>)
    ensures
        r@.map_values(|s: &str| s@) == words_of(text@),
{
    text.unicode_words().collect()
}

/// Relies on `str::to_lowercase`: the result depends on the characters alone.
#[verifier::external_body]
pub(crate) fn lowercase(s: &str) -> (r: String)
    ensures
        r@ == lower_of(s@),
{
    s.to_lowercase()
}

/// Relies on `rust_stemmers::Stemmer::create` and `Stemmer::stem`: the stem
/// depends on the algorithm and the word alone. The stemmer keeps byte
/// offsets in `i32`, so the word must be shorter than 2^31 bytes.
#[verifier::external_body]
pub(crate) fn stem_word(algorithm: rust_stemmers::Algorithm, word: &str) -> (r: String)
    requires
        word.len() <= 2147483647,
    ensures
        r@ == stem_of(algorithm, word@),
{
    rust_stemmers::Stemmer::create(algorithm).stem(word).into_owned()
}

/// Relies on `str::trim_end`: the result depends on the characters alone.
#[verifier::external_body]
pub(crate) fn trim_end(s: &str) -> (r: &str)
    ensures
        r@ == trim_end_of(s@),
{
    s.trim_end()
}

/// Relies on `stop_words::lookup`: the list for a code is a fixed table, and
/// an unknown code has none.
#[verifier::external_body]
pub(crate) fn stop_list(code: &str) -> (r: Option<Vec<String>>)
    ensures
        r.is_some() == stop_list_of(code@).is_some(),
        r.is_some() ==> r.unwrap()@.map_values(|w: String| w@) == stop_list_of(code@).unwrap(),
{
    stop_words::lookup(code).map(|ws| ws.iter().map(|w| w.to_string()).collect())
}

} // verus!
