//! The languages a document can be in, and what each one selects: a
//! stemming algorithm and a stop-word list, each of which may be missing.
use vstd::prelude::*;

verus! {

/// A document's language.
#[derive(Clone, Copy, Debug, PartialEq, Eq, Structural)]
#[non_exhaustive]
pub enum Language {
    Afrikaans,
    Arabic,
    Armenian,
    Basque,
    Bengali,
    Breton,
    Bulgarian,
    Catalan,
    Chinese,
    Croatian,
    Czech,
    Danish,
    Dutch,
    English,
    Esperanto,
    Estonian,
    Finnish,
    French,
    Galician,
    German,
    Greek,
    Gujarati,
    Hausa,
    Hebrew,
    Hindi,
    Hungarian,
    Indonesian,
    Irish,
    Italian,
    Japanese,
    Korean,
    Kurdish,
    Latin,
    Latvian,
    Lithuanian,
    Malay,
    Marathi,
    Norwegian,
    Persian,
    Polish,
    Portuguese,
    Romanian,
    Russian,
    Slovak,
    Slovenian,
    Somali,
    Sotho,
    Spanish,
    Swahili,
    Swedish,
    Tagalog,
    Tamil,
    Thai,
    Turkish,
    Ukrainian,
    Urdu,
    Vietnamese,
    Yoruba,
    Zulu,
}

/// The Snowball algorithm that stems words of a language, if there is one.
pub open spec fn algorithm_of(language: Language) -> Option<rust_stemmers::Algorithm> {
    match language {
        Language::Arabic => Some(rust_stemmers::Algorithm::Arabic),
        Language::Danish => Some(rust_stemmers::Algorithm::Danish),
        Language::Dutch => Some(rust_stemmers::Algorithm::Dutch),
        Language::English => Some(rust_stemmers::Algorithm::English),
        Language::Finnish => Some(rust_stemmers::Algorithm::Finnish),
        Language::French => Some(rust_stemmers::Algorithm::French),
        Language::German => Some(rust_stemmers::Algorithm::German),
        Language::Greek => Some(rust_stemmers::Algorithm::Greek),
        Language::Hungarian => Some(rust_stemmers::Algorithm::Hungarian),
        Language::Italian => Some(rust_stemmers::Algorithm::Italian),
        Language::Norwegian => Some(rust_stemmers::Algorithm::Norwegian),
        Language::Portuguese => Some(rust_stemmers::Algorithm::Portuguese),
        Language::Romanian => Some(rust_stemmers::Algorithm::Romanian),
        Language::Russian => Some(rust_stemmers::Algorithm::Russian),
        Language::Spanish => Some(rust_stemmers::Algorithm::Spanish),
        Language::Swedish => Some(rust_stemmers::Algorithm::Swedish),
        Language::Tamil => Some(rust_stemmers::Algorithm::Tamil),
        Language::Turkish => Some(rust_stemmers::Algorithm::Turkish),
        _ => None,
    }
}

/// The code under which `stop_words` keeps a language's stop words, if it is
/// looked up at all.
pub open spec fn stop_code_of(language: Language) -> Option<Seq<char>> {
    match language {
        Language::Afrikaans => Some("af"@),
        Language::Arabic => Some("ar"@),
        Language::Armenian => Some("hy"@),
        Language::Basque => Some("eu"@),
        Language::Bengali => Some("bn"@),
        Language::Breton => Some("br"@),
        Language::Bulgarian => Some("bg"@),
        Language::Catalan => Some("ca"@),
        Language::Chinese => Some("zh"@),
        Language::Croatian => Some("hr"@),
        Language::Czech => Some("cs"@),
        Language::Danish => Some("da"@),
        Language::Dutch => Some("nl"@),
        Language::English => Some("en"@),
        Language::Esperanto => Some("eo"@),
        Language::Estonian => Some("et"@),
        Language::Finnish => Some("fi"@),
        Language::French => Some("fr"@),
        Language::Galician => Some("gl"@),
        Language::German => Some("de"@),
        Language::Greek => Some("el"@),
        Language::Gujarati => Some("gu"@),
        Language::Hausa => Some("ha"@),
        Language::Hebrew => Some("he"@),
        Language::Hindi => Some("hi"@),
        Language::Hungarian => Some("hu"@),
        Language::Indonesian => Some("id"@),
        Language::Irish => Some("ga"@),
        Language::Italian => Some("it"@),
        Language::Japanese => Some("ja"@),
        Language::Korean => Some("ko"@),
        Language::Kurdish => Some("ku"@),
        Language::Latin => Some("la"@),
        Language::Latvian => Some("lv"@),
        Language::Lithuanian => Some("lt"@),
        Language::Malay => Some("ms"@),
        Language::Marathi => Some("mr"@),
        Language::Norwegian => Some("no"@),
        Language::Persian => Some("fa"@),
        Language::Polish => Some("pl"@),
        Language::Portuguese => Some("pt"@),
        Language::Romanian => Some("ro"@),
        Language::Russian => Some("ru"@),
        Language::Slovak => Some("sk"@),
        Language::Slovenian => Some("sl"@),
        Language::Somali => Some("so"@),
        Language::Sotho => Some("st"@),
        Language::Spanish => Some("es"@),
        Language::Swahili => Some("sw"@),
        Language::Swedish => Some("sv"@),
        Language::Tagalog => Some("tl"@),
        Language::Tamil => None,
        Language::Thai => Some("th"@),
        Language::Turkish => Some("tr"@),
        Language::Ukrainian => Some("uk"@),
        Language::Urdu => Some("ur"@),
        Language::Vietnamese => Some("vi"@),
        Language::Yoruba => Some("yo"@),
        Language::Zulu => Some("zu"@),
    }
}

impl Language {
    /// The Snowball algorithm that stems words of this language, if any.
    pub fn algorithm(self) -> (r: Option<rust_stemmers::Algorithm>)
        ensures
            r == algorithm_of(self),
    {
        match self {
            Language::Arabic => Some(rust_stemmers::Algorithm::Arabic),
            Language::Danish => Some(rust_stemmers::Algorithm::Danish),
            Language::Dutch => Some(rust_stemmers::Algorithm::Dutch),
            Language::English => Some(rust_stemmers::Algorithm::English),
            Language::Finnish => Some(rust_stemmers::Algorithm::Finnish),
            Language::French => Some(rust_stemmers::Algorithm::French),
            Language::German => Some(rust_stemmers::Algorithm::German),
            Language::Greek => Some(rust_stemmers::Algorithm::Greek),
            Language::Hungarian => Some(rust_stemmers::Algorithm::Hungarian),
            Language::Italian => Some(rust_stemmers::Algorithm::Italian),
            Language::Norwegian => Some(rust_stemmers::Algorithm::Norwegian),
            Language::Portuguese => Some(rust_stemmers::Algorithm::Portuguese),
            Language::Romanian => Some(rust_stemmers::Algorithm::Romanian),
            Language::Russian => Some(rust_stemmers::Algorithm::Russian),
            Language::Spanish => Some(rust_stemmers::Algorithm::Spanish),
            Language::Swedish => Some(rust_stemmers::Algorithm::Swedish),
            Language::Tamil => Some(rust_stemmers::Algorithm::Tamil),
            Language::Turkish => Some(rust_stemmers::Algorithm::Turkish),
            _ => None,
        }
    }

    /// The code of this language's stop-word list, if any.
    pub fn stop_code(self) -> (r: Option<&'static str>)
        ensures
            r.is_some() == stop_code_of(self).is_some(),
            r.is_some() ==> r.unwrap()@ == stop_code_of(self).unwrap(),
    {
        match self {
            Language::Afrikaans => Some("af"),
            Language::Arabic => Some("ar"),
            Language::Armenian => Some("hy"),
            Language::Basque => Some("eu"),
            Language::Bengali => Some("bn"),
            Language::Breton => Some("br"),
            Language::Bulgarian => Some("bg"),
            Language::Catalan => Some("ca"),
            Language::Chinese => Some("zh"),
            Language::Croatian => Some("hr"),
            Language::Czech => Some("cs"),
            Language::Danish => Some("da"),
            Language::Dutch => Some("nl"),
            Language::English => Some("en"),
            Language::Esperanto => Some("eo"),
            Language::Estonian => Some("et"),
            Language::Finnish => Some("fi"),
            Language::French => Some("fr"),
            Language::Galician => Some("gl"),
            Language::German => Some("de"),
            Language::Greek => Some("el"),
            Language::Gujarati => Some("gu"),
            Language::Hausa => Some("ha"),
            Language::Hebrew => Some("he"),
            Language::Hindi => Some("hi"),
            Language::Hungarian => Some("hu"),
            Language::Indonesian => Some("id"),
            Language::Irish => Some("ga"),
            Language::Italian => Some("it"),
            Language::Japanese => Some("ja"),
            Language::Korean => Some("ko"),
            Language::Kurdish => Some("ku"),
            Language::Latin => Some("la"),
            Language::Latvian => Some("lv"),
            Language::Lithuanian => Some("lt"),
            Language::Malay => Some("ms"),
            Language::Marathi => Some("mr"),
            Language::Norwegian => Some("no"),
            Language::Persian => Some("fa"),
            Language::Polish => Some("pl"),
            Language::Portuguese => Some("pt"),
            Language::Romanian => Some("ro"),
            Language::Russian => Some("ru"),
            Language::Slovak => Some("sk"),
            Language::Slovenian => Some("sl"),
            Language::Somali => Some("so"),
            Language::Sotho => Some("st"),
            Language::Spanish => Some("es"),
            Language::Swahili => Some("sw"),
            Language::Swedish => Some("sv"),
            Language::Tagalog => Some("tl"),
            Language::Tamil => None,
            Language::Thai => Some("th"),
            Language::Turkish => Some("tr"),
            Language::Ukrainian => Some("uk"),
            Language::Urdu => Some("ur"),
            Language::Vietnamese => Some("vi"),
            Language::Yoruba => Some("yo"),
            Language::Zulu => Some("zu"),
        }
    }
}

} // verus!
