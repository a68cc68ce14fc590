use homie::translations::{find_best_language, parse, Language, MatchLevel};

fn lang(language: &str) -> Language {
    Language::LanguageOnly(language.to_owned())
}

fn lang_sc(language: &str, script: &str) -> Language {
    Language::LanguageScript(language.to_owned(), script.to_owned())
}

#[test]
fn returns_catch_all_language_if_empty_string_is_passed() {
    assert_eq!(parse(""), Language::Catchall);
}

#[test]
fn returns_catch_language_if_only_language_is_passed() {
    assert_eq!(parse("en"), Language::LanguageOnly("en".to_owned()));
    assert_eq!(parse("*"), Language::LanguageOnly("*".to_owned()));
    assert_eq!(
        parse("NONSENSE"),
        Language::LanguageOnly("nonsense".to_owned())
    );
}

#[test]
fn returns_language_and_script_if_both_are_provided() {
    assert_eq!(
        parse("en-US"),
        Language::LanguageScript("en".to_owned(), "US".to_owned())
    );
    assert_eq!(
        parse("*_%"),
        Language::LanguageScript("*".to_owned(), "%".to_owned())
    );
    assert_eq!(
        parse("a b c-D E F"),
        Language::LanguageScript("a b c".to_owned(), "D E F".to_owned())
    );
}

#[test]
fn returns_the_language_and_script_but_ignores_further_subcomponents() {
    assert_eq!(
        parse("en-US-unknown"),
        Language::LanguageScript("en".to_owned(), "US".to_owned())
    );
    assert_eq!(
        parse("en_GB-unknown"),
        Language::LanguageScript("en".to_owned(), "GB".to_owned())
    );
    assert_eq!(
        parse("en-US_unknown"),
        Language::LanguageScript("en".to_owned(), "US".to_owned())
    );
    assert_eq!(
        parse("en_GB_unknown"),
        Language::LanguageScript("en".to_owned(), "GB".to_owned())
    );
}

#[test]
fn normalises_the_case_of_the_tags() {
    assert_eq!(
        parse("en_us"),
        Language::LanguageScript("en".to_owned(), "US".to_owned())
    );
    assert_eq!(
        parse("EN_GB"),
        Language::LanguageScript("en".to_owned(), "GB".to_owned())
    );
    assert_eq!(
        parse("eN-Us"),
        Language::LanguageScript("en".to_owned(), "US".to_owned())
    );
    assert_eq!(
        parse("En-gB"),
        Language::LanguageScript("en".to_owned(), "GB".to_owned())
    );
}

#[test]
fn returns_first_exact_match_language_when_it_exists() {
    assert_eq!(
        find_best_language(&[lang_sc("en", "GB")], &[lang_sc("en", "GB"), lang("en")]),
        lang_sc("en", "GB")
    );
    assert_eq!(
        find_best_language(
            &[lang("en"), lang_sc("en", "GB")],
            &[lang_sc("en", "GB"), lang("en")]
        ),
        lang_sc("en", "GB")
    );
    assert_eq!(
        find_best_language(
            &[Language::Catchall, lang_sc("en", "GB"), lang_sc("de", "DE")],
            &[lang_sc("en", "GB"), lang_sc("de", "DE"), lang("en")]
        ),
        lang_sc("en", "GB")
    );
}

#[test]
fn does_not_return_exact_match_language_if_no_part_matches() {
    assert_eq!(
        find_best_language(
            &[Language::Catchall, lang_sc("de", "DE"), lang("en")],
            &[lang_sc("en", "GB"), lang("en")]
        ),
        lang("en")
    );
}

#[test]
fn returns_the_language_preferred_by_the_user_not_by_implementor() {
    assert_eq!(
        find_best_language(
            &[Language::Catchall, lang_sc("de", "DE"), lang_sc("en", "GB")],
            &[lang_sc("en", "GB"), lang_sc("de", "DE"), lang("en")]
        ),
        lang_sc("en", "GB")
    );
    assert_eq!(
        find_best_language(
            &[Language::Catchall, lang_sc("de", "DE"), lang("en")],
            &[lang_sc("en", "GB"), lang_sc("de", "DE"), lang("en")]
        ),
        lang_sc("de", "DE")
    );
    assert_eq!(
        find_best_language(
            &[Language::Catchall, lang_sc("de", "DE"), lang("en")],
            &[lang_sc("en", "GB"), lang("en"), lang_sc("de", "DE")]
        ),
        lang("en")
    );
    assert_eq!(
        find_best_language(
            &[Language::Catchall, lang_sc("de", "DE"), lang_sc("en", "US")],
            &[lang_sc("en", "GB"), lang("en"), lang_sc("de", "DE")]
        ),
        lang_sc("en", "US")
    );
}

#[test]
fn match_levels_grade_requests_against_available_languages() {
    assert_eq!(
        homie::translations::matches(&Language::Catchall, &lang("fr")),
        MatchLevel::MatchesCatchall
    );
    assert_eq!(
        homie::translations::matches(&lang("en"), &lang_sc("en", "GB")),
        MatchLevel::MatchesLanguage
    );
    assert_eq!(
        homie::translations::matches(&lang_sc("en", "GB"), &lang_sc("en", "GB")),
        MatchLevel::MatchesScript
    );
    assert_eq!(
        homie::translations::matches(&lang_sc("en", "GB"), &lang("en")),
        MatchLevel::NoMatch
    );
    assert_eq!(
        homie::translations::matches(&lang("en"), &Language::Catchall),
        MatchLevel::NoMatch
    );
}

#[test]
fn catch_all_is_returned_when_nothing_is_available() {
    assert_eq!(
        find_best_language(&[], &[lang("en"), Language::Catchall]),
        Language::Catchall
    );
}

#[test]
fn tags_render_back_to_canonical_text() {
    assert_eq!(Language::Catchall.tag(), "");
    assert_eq!(lang("en").tag(), "en");
    assert_eq!(lang_sc("en", "GB").tag(), "en-GB");
}
